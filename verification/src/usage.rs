//! What each line that a client can send means, and what it is answered.

use regex::Regex;
use vstd::prelude::*;
use vstd::string::*;

use crate::command;
use crate::command::FilterOptions;
use crate::external;
use crate::filters::FilterOutput;
use crate::ids;
use crate::minecraft::AttendantCommand;
use crate::secretary;
use crate::secretary::{
    AttendantAnswer, AttendantProcessor, ConnectionAction, ConnectionEvent, Pending, RecvFailure,
    SendOutcome, Step,
};
use crate::text;

verus! {

// === Answers ===

/// Each kind of answer, word by word: the header, a colon, the status, the message if there is any,
/// and a newline. Whitespace at the end of the message is left out. A bail and a farewell close the
/// connection, and no other answer does.
pub proof fn answers_word_by_word(answer: AttendantAnswer, header: Seq<char>, message: Seq<char>)
    ensures
        ({
            let said = text::without_trailing_space(message);
            &&& answer.is_ok(header, message) <==> answer.line@ == secretary::replied(
                header,
                "ok"@,
                said,
            ) && !answer.end_connection
            &&& answer.is_error(header, message) <==> answer.line@ == secretary::replied(
                header,
                "error"@,
                said,
            ) && !answer.end_connection
            &&& answer.is_bail(header, message) <==> answer.line@ == secretary::replied(
                header,
                "bail"@,
                said,
            ) && answer.end_connection
            &&& answer.is_farewell(header) <==> answer.line@ == secretary::replied(
                header,
                "ok"@,
                Seq::empty(),
            ) && answer.end_connection
        }),
{
    secretary::reply_has_the_form_of_a_reply(header, "ok"@, message);
    secretary::reply_has_the_form_of_a_reply(header, "error"@, message);
    secretary::reply_has_the_form_of_a_reply(header, "bail"@, message);
    secretary::reply_has_the_form_of_a_reply(header, "ok"@, ""@);
    reveal_strlit("");
    assert(""@ =~= Seq::empty());
    assert(text::without_trailing_space(Seq::<char>::empty()) =~= Seq::empty());
}

/// A reply, character by character around the header, the status and the message.
pub proof fn a_reply_is_spelled_out(header: Seq<char>, status: Seq<char>, message: Seq<char>)
    ensures
        message.len() == 0 ==> secretary::replied(header, status, message) == header + seq![
            ':',
            ' ',
        ] + status + seq!['\n'],
        message.len() > 0 ==> secretary::replied(header, status, message) == header + seq![
            ':',
            ' ',
        ] + status + seq![' '] + message + seq!['\n'],
{
    reveal_strlit(": ");
    reveal_strlit(" ");
    reveal_strlit("\n");
    assert(": "@ =~= seq![':', ' ']);
    assert(" "@ =~= seq![' ']);
    assert("\n"@ =~= seq!['\n']);
    let start = header + seq![':', ' '] + status;
    if message.len() == 0 {
        assert(secretary::replied(header, status, message) =~= start + seq!['\n']);
    } else {
        assert(secretary::replied(header, status, message) =~= start + seq![' '] + message + seq![
            '\n',
        ]);
    }
}

/// Every answer says the whole line that it was made of, whitespace at its end aside, and ends with
/// a newline.
pub proof fn an_answer_says_the_whole_line(
    answer: AttendantAnswer,
    line: Seq<char>,
    end_connection: bool,
)
    requires
        answer.says(line, end_connection),
    ensures
        ({
            let n = answer.line@.len() - 1;
            &&& 0 <= n <= line.len()
            &&& answer.line@[n] == '\n'
            &&& answer.line@.take(n) == line.take(n)
            &&& forall|i: int|
                n <= i < line.len() ==> #[trigger] line[i] == ' ' || line[i] == '\t' || line[i]
                    == '\n'
        }),
        answer.end_connection == end_connection,
{
    text::only_trailing_space_goes(line);
    let rest = text::without_trailing_space(line);
    assert(rest.push('\n').take(rest.len() as int) =~= rest);
}

/// The step is to answer that the command failed.
pub open spec fn fails<S>(step: Step<S>, header: Seq<char>, message: Seq<char>) -> bool {
    step matches Step::Reply(answer) && answer.is_error(header, message)
}

/// The step is to answer that the command succeeded.
pub open spec fn succeeds<S>(step: Step<S>, header: Seq<char>, message: Seq<char>) -> bool {
    step matches Step::Reply(answer) && answer.is_ok(header, message)
}

// === Lines of a client ===

/// The names of the commands are names, and no two are the same.
proof fn names_are_names()
    ensures
        command::is_command_name("ready"@),
        command::is_command_name("slash"@),
        command::is_command_name("get-line"@),
        command::is_command_name("guard-begin"@),
        command::is_command_name("guard-renew"@),
        command::is_command_name("guard-end"@),
        command::is_command_name("filter-start"@),
        command::is_command_name("filter-stop"@),
        command::is_command_name("cya"@),
        "ready"@.len() == 5,
        "slash"@.len() == 5,
        "get-line"@.len() == 8,
        "guard-begin"@.len() == 11,
        "guard-renew"@.len() == 11,
        "guard-end"@.len() == 9,
        "filter-start"@.len() == 12,
        "filter-stop"@.len() == 11,
        "cya"@.len() == 3,
        "ready"@ != "slash"@,
        "guard-begin"@ != "guard-renew"@,
        "guard-begin"@ != "filter-stop"@,
        "guard-renew"@ != "filter-stop"@,
{
    reveal_strlit("ready");
    reveal_strlit("slash");
    reveal_strlit("get-line");
    reveal_strlit("guard-begin");
    reveal_strlit("guard-renew");
    reveal_strlit("guard-end");
    reveal_strlit("filter-start");
    reveal_strlit("filter-stop");
    reveal_strlit("cya");
    assert("ready"@[0] == 'r' && "slash"@[0] == 's');
    assert("guard-begin"@[6] == 'b' && "guard-renew"@[6] == 'r');
    assert("guard-begin"@[0] == 'g' && "guard-renew"@[0] == 'g' && "filter-stop"@[0] == 'f');
}

/// What a line comes to is what its command comes to.
proof fn the_command_is_found<S>(
    id: Option<Seq<char>>,
    name: Seq<char>,
    args: Option<Seq<char>>,
    before: AttendantProcessor<S>,
    after: AttendantProcessor<S>,
    step: Step<S>,
)
    requires
        command::is_command_id(id),
        command::is_command_name(name),
        args matches Some(a) ==> command::is_one_line(a),
        secretary::line_step(before, command::request_line(id, name, args), after, step),
    ensures
        secretary::command_step(
            before,
            command::before_command(id) + name,
            name,
            match args {
                Some(a) => a,
                None => Seq::empty(),
            },
            after,
            step,
        ),
{
    command::a_request_reads_back(id, name, args);
    let line = command::request_line(id, name, args);
    let start = command::before_command(id).len() as int;
    assert(command::is_request(line, start, start + name.len()));
}

/// `slash` sends the whole of its arguments as a console command, and fails without any.
pub proof fn slash_sends_a_console_command<S>(
    id: Option<Seq<char>>,
    args: Option<Seq<char>>,
    before: AttendantProcessor<S>,
    after: AttendantProcessor<S>,
    step: Step<S>,
)
    requires
        command::is_command_id(id),
        args matches Some(a) ==> command::is_one_line(a),
        secretary::line_step(before, command::request_line(id, "slash"@, args), after, step),
    ensures
        ({
            let header = command::before_command(id) + "slash"@;
            &&& after == before
            &&& args matches Some(a) ==> a.len() > 0 ==> {
                &&& step matches Step::Send {
                    header: h,
                    command: AttendantCommand::SendCommand(s),
                    pending: Pending::Slash,
                }
                &&& h@ == header
                &&& s@ == a
            }
            &&& (args matches Some(a) ==> a.len() == 0) ==> fails(
                step,
                header,
                "missing command"@,
            )
        }),
{
    names_are_names();
    the_command_is_found(id, "slash"@, args, before, after, step);
}

/// `ready` waits for the server, and `cya` says farewell. Neither minds its arguments.
pub proof fn ready_waits_and_cya_leaves<S>(
    id: Option<Seq<char>>,
    args: Option<Seq<char>>,
    before: AttendantProcessor<S>,
    ready_after: AttendantProcessor<S>,
    ready: Step<S>,
    cya_after: AttendantProcessor<S>,
    cya: Step<S>,
)
    requires
        command::is_command_id(id),
        args matches Some(a) ==> command::is_one_line(a),
        secretary::line_step(before, command::request_line(id, "ready"@, args), ready_after, ready),
        secretary::line_step(before, command::request_line(id, "cya"@, args), cya_after, cya),
    ensures
        ready_after == before,
        ready matches Step::WaitReady { header: h } && h@ == command::before_command(id)
            + "ready"@,
        cya_after == before,
        cya matches Step::Reply(answer) && answer.is_farewell(
            command::before_command(id) + "cya"@,
        ),
{
    names_are_names();
    the_command_is_found(id, "ready"@, args, before, ready_after, ready);
    the_command_is_found(id, "cya"@, args, before, cya_after, cya);
}

/// The regex that a client's pattern compiles to within a mebibyte, if it does.
pub open spec fn compiled_in_a_mebibyte(pattern: Seq<char>) -> Option<Regex> {
    external::regex_built(pattern, 1_048_576, usize::BITS as nat)
}

/// `get-line` with a regex and a console command sends the whole command, with a filter for the
/// first line that matches: one line can match, 64 can not, and chat is ignored. What the filter
/// finds is what is waited for.
pub proof fn get_line_sends_and_looks_for_a_line<S>(
    id: Option<Seq<char>>,
    pattern: Seq<char>,
    slash: Seq<char>,
    before: AttendantProcessor<S>,
    after: AttendantProcessor<S>,
    step: Step<S>,
)
    requires
        command::is_command_id(id),
        command::is_one_line(pattern),
        command::is_one_line(slash),
        slash.len() > 0,
        forall|i: int|
            0 <= i < pattern.len() ==> !text::occurs_at(
                pattern + seq!['"', '#', ' '],
                seq!['"', '#', ' '],
                i,
            ),
        secretary::line_step(
            before,
            command::request_line(
                id,
                "get-line"@,
                Some(command::quoted(pattern, seq![' '] + slash)),
            ),
            after,
            step,
        ),
    ensures
        after == before,
        match compiled_in_a_mebibyte(pattern) {
            Some(regex) => {
                &&& step matches Step::Send {
                    header: h,
                    command: AttendantCommand::GetLine(s, filter),
                    pending: Pending::GetLine { rx },
                }
                &&& h@ == command::before_command(id) + "get-line"@
                &&& s@ == slash
                &&& filter.regex == regex
                &&& filter.count == Some(1i32)
                &&& filter.fail == Some(64i32)
                &&& filter.ignore_chat
                &&& filter.offers().len() == 0
                &&& filter.feeds(rx)
                &&& external::rounded_capacity(16, external::broadcast_capacity(filter.chan))
            },
            None => fails(
                step,
                command::before_command(id) + "get-line"@,
                "invalid or expensive regex"@,
            ),
        },
{
    names_are_names();
    command::get_line_reads_back(pattern, slash);
    let args = command::quoted(pattern, seq![' '] + slash);
    one_line_quoted(pattern, seq![' '] + slash);
    the_command_is_found(id, "get-line"@, Some(args), before, after, step);
    assert(command::is_get_line(args, 3 + pattern.len() as int));
}

/// A regex and what follows it stand on one line if both do.
proof fn one_line_quoted(pattern: Seq<char>, rest: Seq<char>)
    requires
        command::is_one_line(pattern),
        command::is_one_line(rest),
    ensures
        command::is_one_line(command::quoted(pattern, rest)),
{
    let all = command::quoted(pattern, rest);
    let n = pattern.len() as int;
    assert forall|i: int| 0 <= i < all.len() implies #[trigger] all[i] != '\n' by {
        if 3 <= i < 3 + n {
            assert(all[i] == pattern[i - 3]);
        } else if i >= 5 + n {
            assert(all[i] == rest[i - 5 - n]);
        }
    }
}

/// How long a guard lasts that was asked for with these digits, in seconds: as long as they say, or
/// without any, 15 seconds.
pub open spec fn duration(digits: Option<Seq<char>>) -> nat {
    match digits {
        Some(d) => text::number_value(d),
        None => 15,
    }
}

/// The digits of a duration and an `s`, after a space, if there are any.
pub open spec fn duration_after(digits: Option<Seq<char>>) -> Seq<char> {
    match digits {
        Some(d) => seq![' '] + d + seq!['s'],
        None => Seq::empty(),
    }
}

/// The digits of the id of a guard, and a duration if there is one.
pub open spec fn after_guard(guard: Seq<char>, digits: Option<Seq<char>>) -> Seq<char> {
    guard + duration_after(digits)
}

/// Digits stand on one line.
proof fn durations_are_on_one_line(digits: Option<Seq<char>>)
    requires
        digits matches Some(d) ==> text::is_number(d),
    ensures
        command::is_one_line(duration_after(digits)),
{
    if let Some(d) = digits {
        let all = duration_after(digits);
        assert forall|i: int| 0 <= i < all.len() implies #[trigger] all[i] != '\n' by {
            if 1 <= i <= d.len() {
                assert(all[i] == d[i - 1]);
                assert(text::is_digit(d[i - 1]));
            }
        }
    }
}

/// `guard-begin` with a regex opens a guard with that regex, for as many seconds as it says, or 15.
pub proof fn guard_begin_opens_a_guard<S>(
    id: Option<Seq<char>>,
    pattern: Seq<char>,
    digits: Option<Seq<char>>,
    before: AttendantProcessor<S>,
    after: AttendantProcessor<S>,
    step: Step<S>,
)
    requires
        command::is_command_id(id),
        command::is_one_line(pattern),
        digits matches Some(d) ==> text::is_number(d),
        secretary::line_step(
            before,
            command::request_line(
                id,
                "guard-begin"@,
                Some(command::quoted(pattern, duration_after(digits))),
            ),
            after,
            step,
        ),
    ensures
        ({
            let header = command::before_command(id) + "guard-begin"@;
            &&& after == before
            &&& match compiled_in_a_mebibyte(pattern) {
                Some(regex) => if duration(digits) <= u64::MAX {
                    &&& step matches Step::OpenGuard { header: h, regex: r, seconds }
                    &&& h@ == header
                    &&& r == regex
                    &&& seconds == duration(digits)
                } else {
                    fails(step, header, "invalid duration"@)
                },
                None => fails(step, header, "invalid or expensive regex"@),
            }
        }),
{
    names_are_names();
    let args = command::quoted(pattern, duration_after(digits));
    durations_are_on_one_line(digits);
    one_line_quoted(pattern, duration_after(digits));
    the_command_is_found(id, "guard-begin"@, Some(args), before, after, step);
    match digits {
        Some(d) => {
            command::guard_begin_reads_back(pattern, d);
            assert(command::is_timed_regex(args, 3 + pattern.len() as int));
        },
        None => {
            text::decimal_reads_back(0);
            command::guard_begin_reads_back(pattern, text::decimal(0));
        },
    }
}

/// `guard-renew` with the id of a guard that is kept renews that guard, for as many seconds as it
/// says, or 15. It fails if there is no such guard, or if a number is too large.
pub proof fn guard_renew_renews_that_guard<S>(
    id: Option<Seq<char>>,
    guard: Seq<char>,
    digits: Option<Seq<char>>,
    before: AttendantProcessor<S>,
    after: AttendantProcessor<S>,
    step: Step<S>,
)
    requires
        command::is_command_id(id),
        text::is_number(guard),
        digits matches Some(d) ==> text::is_number(d),
        secretary::line_step(
            before,
            command::request_line(id, "guard-renew"@, Some(after_guard(guard, digits))),
            after,
            step,
        ),
    ensures
        ({
            let header = command::before_command(id) + "guard-renew"@;
            let number = text::number_value(guard);
            let guards = before.input_filters@;
            &&& after == before
            &&& if number > u32::MAX {
                fails(step, header, "invalid filter id"@)
            } else if duration(digits) > u64::MAX {
                fails(step, header, "invalid duration"@)
            } else if !guards.contains_key(number as u32) {
                fails(step, header, "no such guard"@)
            } else {
                &&& step matches Step::Send {
                    header: h,
                    command: AttendantCommand::RenewGuard(filter, seconds),
                    pending: Pending::GuardRenew { filter_id },
                }
                &&& h@ == header
                &&& filter == guards[number as u32]
                &&& seconds == duration(digits)
                &&& filter_id@ == guard
            }
        }),
{
    names_are_names();
    let args = after_guard(guard, digits);
    durations_are_on_one_line(digits);
    assert forall|i: int| 0 <= i < args.len() implies #[trigger] args[i] != '\n' by {
        if i < guard.len() {
            assert(text::is_digit(guard[i]));
        } else {
            assert(args[i] == duration_after(digits)[i - guard.len()]);
        }
    }
    the_command_is_found(id, "guard-renew"@, Some(args), before, after, step);
    match digits {
        Some(d) => {
            command::guard_renew_reads_back(guard, d, args, guard.len() as int);
            assert(command::is_timed_id(args, guard.len() as int));
        },
        None => {
            assert(args =~= guard);
        },
    }
}

/// `guard-end` and `filter-stop` with the id of what is kept drop just that, and answer the id. They
/// fail and change nothing if there is no such id, if it is too large, or if the arguments are no
/// number.
pub proof fn ending_drops_what_has_the_id<S>(
    id: Option<Seq<char>>,
    args: Seq<char>,
    before: AttendantProcessor<S>,
    guard_after: AttendantProcessor<S>,
    guard_step: Step<S>,
    filter_after: AttendantProcessor<S>,
    filter_step: Step<S>,
)
    requires
        command::is_command_id(id),
        command::is_one_line(args),
        secretary::line_step(
            before,
            command::request_line(id, "guard-end"@, Some(args)),
            guard_after,
            guard_step,
        ),
        secretary::line_step(
            before,
            command::request_line(id, "filter-stop"@, Some(args)),
            filter_after,
            filter_step,
        ),
    ensures
        ({
            let header = command::before_command(id) + "guard-end"@;
            let number = text::number_value(args);
            let guards = before.input_filters@;
            if !text::is_number(args) {
                fails(guard_step, header, "invalid arguments"@) && guard_after.input_filters@
                    == guards
            } else if number > u32::MAX {
                fails(guard_step, header, "invalid filter id"@) && guard_after.input_filters@
                    == guards
            } else if !guards.contains_key(number as u32) {
                fails(guard_step, header, "no such guard"@) && guard_after.input_filters@ == guards
            } else {
                &&& succeeds(guard_step, header, args)
                &&& guard_after.input_filters@.dom() == guards.dom().remove(number as u32)
                &&& forall|other: u32|
                    other != number && guards.contains_key(other)
                        ==> #[trigger] guard_after.input_filters@[other] == guards[other]
            }
        }),
        guard_after == (AttendantProcessor { input_filters: guard_after.input_filters, ..before }),
        ({
            let header = command::before_command(id) + "filter-stop"@;
            let number = text::number_value(args);
            let filters = before.output_filters@;
            if !text::is_number(args) {
                fails(filter_step, header, "invalid arguments"@) && filter_after.output_filters@
                    == filters
            } else if number > u32::MAX {
                fails(filter_step, header, "invalid filter id"@) && filter_after.output_filters@
                    == filters
            } else if !filters.contains_key(number as u32) {
                fails(filter_step, header, "no such filter"@) && filter_after.output_filters@
                    == filters
            } else {
                &&& succeeds(filter_step, header, args)
                &&& filter_after.output_filters@.dom() == filters.dom().remove(number as u32)
                &&& forall|other: u32|
                    other != number && filters.contains_key(other)
                        ==> #[trigger] filter_after.output_filters@[other] == filters[other]
            }
        }),
        filter_after == (AttendantProcessor {
            output_filters: filter_after.output_filters,
            ..before
        }),
{
    names_are_names();
    the_command_is_found(id, "guard-end"@, Some(args), before, guard_after, guard_step);
    the_command_is_found(id, "filter-stop"@, Some(args), before, filter_after, filter_step);
    let number = text::number_value(args) as u32;
    assert(before.input_filters@.remove(number).dom() =~= before.input_filters@.dom().remove(
        number,
    ));
    assert(before.output_filters@.remove(number).dom() =~= before.output_filters@.dom().remove(
        number,
    ));
}

/// `filter-start` with a regex and options adds a filter with that regex and those options, which
/// has sent nothing yet. What it finds is what the client gets.
pub proof fn filter_start_adds_that_filter<S>(
    id: Option<Seq<char>>,
    pattern: Seq<char>,
    options: Seq<char>,
    meaning: FilterOptions,
    before: AttendantProcessor<S>,
    after: AttendantProcessor<S>,
    step: Step<S>,
)
    requires
        command::is_command_id(id),
        command::is_one_line(pattern),
        command::is_one_line(options),
        command::options_from(options, 0, command::no_options()) == Some(meaning),
        secretary::line_step(
            before,
            command::request_line(
                id,
                "filter-start"@,
                Some(command::quoted(pattern, options)),
            ),
            after,
            step,
        ),
    ensures
        after == before,
        match compiled_in_a_mebibyte(pattern) {
            Some(regex) => {
                &&& step matches Step::Send {
                    header: h,
                    command: AttendantCommand::AddOutputFilter(filter),
                    pending: Pending::FilterStart { rx },
                }
                &&& h@ == command::before_command(id) + "filter-start"@
                &&& filter.regex == regex
                &&& filter.count == meaning.count
                &&& filter.fail == meaning.fail
                &&& filter.ignore_chat == meaning.ignore_chat
                &&& filter.offers().len() == 0
                &&& filter.feeds(rx)
                &&& external::rounded_capacity(16, external::broadcast_capacity(filter.chan))
            },
            None => fails(
                step,
                command::before_command(id) + "filter-start"@,
                "invalid or expensive regex"@,
            ),
        },
{
    names_are_names();
    let args = command::quoted(pattern, options);
    one_line_quoted(pattern, options);
    command::filter_start_reads_back(pattern, options, args, 0);
    the_command_is_found(id, "filter-start"@, Some(args), before, after, step);
    assert(command::is_filter_start(args, 3 + pattern.len() as int));
}

/// Arguments that a command does not take are refused, and nothing changes.
pub proof fn other_arguments_are_refused<S>(
    id: Option<Seq<char>>,
    name: Seq<char>,
    args: Seq<char>,
    before: AttendantProcessor<S>,
    after: AttendantProcessor<S>,
    step: Step<S>,
)
    requires
        command::is_command_id(id),
        command::is_one_line(args),
        secretary::line_step(before, command::request_line(id, name, Some(args)), after, step),
        ({
            ||| name == "get-line"@ && forall|pattern: Seq<char>, slash: Seq<char>|
                slash.len() > 0 ==> args != #[trigger] command::quoted(
                    pattern,
                    #[trigger] (seq![' '] + slash),
                )
            ||| name == "guard-begin"@ && forall|pattern: Seq<char>, digits: Option<Seq<char>>|
                (digits matches Some(d) ==> text::is_number(d)) ==> args
                    != #[trigger] command::quoted(pattern, duration_after(digits))
            ||| name == "guard-renew"@ && forall|guard: Seq<char>, digits: Option<Seq<char>>|
                text::is_number(guard) && (digits matches Some(d) ==> text::is_number(d)) ==> args
                    != #[trigger] after_guard(guard, digits)
            ||| name == "filter-start"@ && forall|pattern: Seq<char>, rest: Seq<char>|
                command::options_from(rest, 0, command::no_options()) is Some ==> args
                    != #[trigger] command::quoted(pattern, rest)
        }),
    ensures
        after == before,
        fails(step, command::before_command(id) + name, "invalid arguments"@),
{
    names_are_names();
    the_command_is_found(id, name, Some(args), before, after, step);
    if name == "get-line"@ {
        assert forall|close: int| !#[trigger] command::is_get_line(args, close) by {
            if command::is_get_line(args, close) {
                command::get_line_takes_nothing_else(args, close);
                let slash = args.skip(close + 3);
                assert(args == command::quoted(args.subrange(3, close), seq![' '] + slash));
            }
        }
    } else if name == "guard-begin"@ {
        assert forall|close: int| !#[trigger] command::is_timed_regex(args, close) by {
            if command::is_timed_regex(args, close) {
                command::guard_begin_takes_nothing_else(args, close);
                let digits = Some(args.subrange(close + 3, args.len() - 1));
                assert(args == command::quoted(args.subrange(3, close), duration_after(digits)));
            }
        }
        if command::is_lone_regex(args) {
            command::guard_begin_takes_nothing_else(args, 0);
            let none = None::<Seq<char>>;
            assert(args == command::quoted(args.subrange(3, args.len() - 2), duration_after(none)));
        }
    } else if name == "guard-renew"@ {
        assert forall|space: int| !#[trigger] command::is_timed_id(args, space) by {
            if command::is_timed_id(args, space) {
                command::guard_renew_reads_back(args, args, args, space);
                let digits = Some(args.subrange(space + 1, args.len() - 1));
                assert(args == after_guard(args.take(space), digits));
            }
        }
        if text::is_number(args) {
            assert(args =~= after_guard(args, None::<Seq<char>>));
        }
    } else {
        assert forall|close: int| !#[trigger] command::is_filter_start(args, close) by {
            if command::is_filter_start(args, close) {
                command::filter_start_reads_back(Seq::empty(), Seq::empty(), args, close);
                let rest = args.skip(close + 2);
                assert(args == command::quoted(args.subrange(3, close), rest));
            }
        }
    }
}

/// A command with any other name is unknown: the answer names it, and nothing changes.
pub proof fn other_commands_are_unknown<S>(
    id: Option<Seq<char>>,
    name: Seq<char>,
    args: Option<Seq<char>>,
    before: AttendantProcessor<S>,
    after: AttendantProcessor<S>,
    step: Step<S>,
)
    requires
        command::is_command_id(id),
        command::is_command_name(name),
        args matches Some(a) ==> command::is_one_line(a),
        name != "ready"@ && name != "slash"@ && name != "get-line"@ && name != "guard-begin"@,
        name != "guard-renew"@ && name != "guard-end"@ && name != "filter-start"@,
        name != "filter-stop"@ && name != "cya"@,
        secretary::line_step(before, command::request_line(id, name, args), after, step),
    ensures
        after == before,
        fails(step, name, "unknown command"@),
{
    the_command_is_found(id, name, args, before, after, step);
}

/// A line that is made of no command id, command and arguments is answered that it is no request,
/// and nothing changes.
pub proof fn other_lines_are_no_requests<S>(
    line: Seq<char>,
    before: AttendantProcessor<S>,
    after: AttendantProcessor<S>,
    step: Step<S>,
)
    requires
        forall|id: Option<Seq<char>>, name: Seq<char>, args: Option<Seq<char>>|
            command::is_command_id(id) && command::is_command_name(name) && (args matches Some(a)
                ==> command::is_one_line(a)) ==> line != #[trigger] command::request_line(
                id,
                name,
                args,
            ),
        secretary::line_step(before, line, after, step),
    ensures
        after == before,
        fails(step, Seq::empty(), "invalid request"@),
{
    assert forall|start: int, end: int| !#[trigger] command::is_request(line, start, end) by {
        if command::is_request(line, start, end) {
            command::nothing_else_is_a_request(line, start, end);
        }
    }
}

// === What is answered later ===

/// Once a request was sent: if it was not handled, the command failed, and nothing changes.
/// Otherwise it succeeded; a guard or a filter that was started is kept under the next id, which is
/// what the client is told.
pub proof fn what_a_sent_request_is_answered<S>(
    before: AttendantProcessor<S>,
    header: Seq<char>,
    outcome: SendOutcome,
    pending: Pending<S>,
    after: AttendantProcessor<S>,
    step: Step<S>,
)
    requires
        secretary::sent_step(before, header, outcome, pending, after, step),
    ensures
        outcome is NotSent ==> after == before && fails(
            step,
            header,
            "server stopped handling commands"@,
        ),
        outcome is NotHandled ==> after == before && fails(
            step,
            header,
            "command was not handled"@,
        ),
        outcome is Done && pending is Slash ==> after == before && succeeds(
            step,
            header,
            Seq::empty(),
        ),
        outcome is Done ==> (pending matches Pending::GuardRenew { filter_id } ==> after == before
            && succeeds(step, header, filter_id@)),
        outcome is Done ==> (pending matches Pending::GetLine { rx } ==> {
            &&& after == before
            &&& step matches Step::WaitLine { header: h, rx: waiting }
            &&& h@ == header
            &&& waiting == rx
        }),
        outcome is Done ==> (pending matches Pending::GuardBegin { filter } ==> {
            let id = before.request_ids.next;
            &&& step matches Step::GuardStarted { answer, filter_id }
            &&& filter_id == id
            &&& answer.is_ok(header, text::decimal(id as nat))
            &&& after.input_filters@.dom() == before.input_filters@.dom().insert(id)
            &&& after.input_filters@[id] == filter
            &&& forall|other: u32|
                other != id && before.input_filters@.contains_key(other)
                    ==> #[trigger] after.input_filters@[other] == before.input_filters@[other]
            &&& after.output_filters == before.output_filters
            &&& after.id == before.id
            &&& id < u32::MAX ==> after.request_ids.next == id + 1
            &&& id == u32::MAX ==> after.request_ids.next == 0
        }),
        outcome is Done ==> (pending matches Pending::FilterStart { rx } ==> {
            let id = before.request_ids.next;
            &&& succeeds(step, header, text::decimal(id as nat))
            &&& after.output_filters@.dom() == before.output_filters@.dom().insert(id)
            &&& after.output_filters@[id] == rx
            &&& forall|other: u32|
                other != id && before.output_filters@.contains_key(other)
                    ==> #[trigger] after.output_filters@[other] == before.output_filters@[other]
            &&& after.input_filters == before.input_filters
            &&& after.id == before.id
            &&& id < u32::MAX ==> after.request_ids.next == id + 1
            &&& id == u32::MAX ==> after.request_ids.next == 0
        }),
{
    reveal_strlit("");
    assert(""@ =~= Seq::empty());
    let id = before.request_ids.next;
    ids::ids_count_up(id);
    if outcome is Done {
        if let Pending::GuardBegin { filter } = pending {
            assert(before.input_filters@.insert(id, filter).dom()
                =~= before.input_filters@.dom().insert(id));
        }
        if let Pending::FilterStart { rx } = pending {
            assert(before.output_filters@.insert(id, rx).dom()
                =~= before.output_filters@.dom().insert(id));
        }
    }
}

/// `ready` is answered that all is well once the server is ready, and bails out if nobody can tell.
/// `get-line` is answered the line that was found, or that none was.
pub proof fn what_is_waited_for_is_answered(
    header: Seq<char>,
    ready: Option<()>,
    ready_answer: AttendantAnswer,
    output: Option<FilterOutput>,
    line_answer: AttendantAnswer,
)
    requires
        secretary::ready_answer(header, ready, ready_answer),
        secretary::line_answer(header, output, line_answer),
    ensures
        ready is Some ==> ready_answer.is_ok(header, Seq::empty()),
        ready is None ==> ready_answer.is_bail(header, "unknown server status"@),
        output matches Some(FilterOutput::Line(line)) ==> line_answer.is_ok(header, line@),
        output matches Some(FilterOutput::Expired) ==> line_answer.is_error(
            header,
            "line not found"@,
        ),
        output is None ==> line_answer.is_error(header, "line not found"@),
{
    reveal_strlit("");
    assert(""@ =~= Seq::empty());
}

/// A guard that is opened is the client's own: it has the regex, the duration and the channel that it
/// was opened with, and lets that client through. The guard that is started is the one that is kept.
pub proof fn a_guard_is_opened_for_its_client<S>(
    before: AttendantProcessor<S>,
    header: Seq<char>,
    regex: Regex,
    seconds: u64,
    expired: S,
    after: AttendantProcessor<S>,
    step: Step<S>,
)
    requires
        secretary::guard_opening(before, header, regex, seconds, expired, after, step),
    ensures
        step matches Step::Send {
            header: h,
            command: AttendantCommand::StartGuard(filter, s),
            pending: Pending::GuardBegin { filter: kept },
        } && h@ == header && s == seconds && kept == filter && filter.0.regex == regex
            && filter.0.expired == expired && filter.0.client_id == before.id,
        after.id == before.id,
        after.input_filters == before.input_filters,
        after.output_filters == before.output_filters,
        after.request_ids == before.request_ids,
{
}

/// Two guards of one client that are opened one after the other, and guards of two clients, never
/// have the same key.
pub proof fn guards_never_share_a_key<S>(
    before: AttendantProcessor<S>,
    header: Seq<char>,
    regex: Regex,
    seconds: u64,
    expired: S,
    middle: AttendantProcessor<S>,
    first: Step<S>,
    other: AttendantProcessor<S>,
    other_header: Seq<char>,
    other_regex: Regex,
    other_seconds: u64,
    other_expired: S,
    after: AttendantProcessor<S>,
    second: Step<S>,
)
    requires
        secretary::guard_opening(before, header, regex, seconds, expired, middle, first),
        secretary::guard_opening(
            other,
            other_header,
            other_regex,
            other_seconds,
            other_expired,
            after,
            second,
        ),
        other == middle || other.id != before.id,
    ensures
        first matches Step::Send { command: AttendantCommand::StartGuard(a, _), .. } ==> (
        second matches Step::Send { command: AttendantCommand::StartGuard(b, _), .. } ==> a.0.key
            != b.0.key),
{
    let a = ids::key_of(before.id, before.guard_ids.next);
    let b = ids::key_of(other.id, other.guard_ids.next);
    ids::ids_count_up(before.guard_ids.next);
    if a == b {
        ids::guard_keys_are_distinct(
            before.id,
            before.guard_ids.next,
            other.id,
            other.guard_ids.next,
        );
    }
}

// === The output of filters ===

/// What the client is told of the output of a filter, word by word: a line that matched is told as a
/// whole. After the filter has ended nothing more comes, and the client is told that too.
pub proof fn filter_output_word_by_word(filter_id: u32, line: String, lost: u64)
    ensures
        ({
            let start = "filter "@ + text::decimal(filter_id as nat);
            &&& secretary::filter_line(filter_id, Ok(FilterOutput::Line(line))) == start
                + ": ok "@ + line@ + "\n"@
            &&& secretary::filter_line(filter_id, Err(RecvFailure::Lagged(lost))) == start
                + ": error lagged "@ + text::decimal(lost as nat) + "\n"@
            &&& secretary::filter_line(filter_id, Ok(FilterOutput::Expired)) == start
                + ": ok done\n"@
            &&& secretary::filter_line(filter_id, Err(RecvFailure::Closed)) == start
                + ": ok done\n"@
        }),
        !secretary::is_last_output(Ok(FilterOutput::Line(line))),
        !secretary::is_last_output(Err(RecvFailure::Lagged(lost))),
        secretary::is_last_output(Ok(FilterOutput::Expired)),
        secretary::is_last_output(Err(RecvFailure::Closed)),
{
    reveal_strlit(": ");
    reveal_strlit("ok ");
    reveal_strlit(": ok ");
    reveal_strlit("error lagged ");
    reveal_strlit(": error lagged ");
    reveal_strlit("ok done");
    reveal_strlit("\n");
    reveal_strlit(": ok done\n");
    let start = "filter "@ + text::decimal(filter_id as nat);
    assert(": "@ + "ok "@ =~= ": ok "@);
    assert(": "@ + "error lagged "@ =~= ": error lagged "@);
    assert(": "@ + "ok done"@ + "\n"@ =~= ": ok done\n"@);
    assert(start + ": "@ + ("ok "@ + line@) + "\n"@ =~= start + ": ok "@ + line@ + "\n"@);
    assert(start + ": "@ + ("error lagged "@ + text::decimal(lost as nat)) + "\n"@ =~= start
        + ": error lagged "@ + text::decimal(lost as nat) + "\n"@);
    assert(start + ": "@ + "ok done"@ + "\n"@ =~= start + ": ok done\n"@);
}

// === The connection ===

/// What is done about each event on a connection: an answer and an output are written to the client,
/// an answer closes the connection if it says so, a line is processed, and nothing else that happens
/// leaves the connection open.
pub proof fn what_is_done_about_an_event<S>(
    before: AttendantProcessor<S>,
    event: ConnectionEvent,
    after: AttendantProcessor<S>,
    action: ConnectionAction,
)
    requires
        secretary::connection_step(before, event, after, action),
    ensures
        event matches ConnectionEvent::Answer(answer) ==> {
            &&& action matches ConnectionAction::Write { line, close }
            &&& line@ == answer.line@
            &&& close == answer.end_connection
            &&& after == before
        },
        event matches ConnectionEvent::FilterOutput(filter_id, output) ==> {
            &&& action matches ConnectionAction::Write { line, close }
            &&& line@ == secretary::filter_line(filter_id, output)
            &&& !close
            &&& after.input_filters == before.input_filters
            &&& after.request_ids == before.request_ids
            &&& after.guard_ids == before.guard_ids
            &&& after.id == before.id
            &&& (output matches Ok(FilterOutput::Line(_)) || output matches Err(
                RecvFailure::Lagged(_),
            )) ==> after.output_filters@ == before.output_filters@
            &&& (output matches Ok(FilterOutput::Expired) || output matches Err(
                RecvFailure::Closed,
            )) ==> after.output_filters@ == before.output_filters@.remove(filter_id)
        },
        event matches ConnectionEvent::Command(line) ==> action == ConnectionAction::Process(line)
            && after == before,
        event is Unreadable ==> action is Close && after == before,
        event is Exhausted ==> action is Close && after == before,
{
}

} // verus!
