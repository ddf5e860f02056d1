//! The language that clients speak on the socket.
//!
//! A request is one line: an optional command id, a command, and its arguments.
//!
//! ```text
//! ready
//! [5] slash say Never mine straight down
//! get-line r#"^There are .*? players online"# list
//! guard-begin r#"^save-"# 50s
//! guard-renew 2
//! guard-renew 2 50s
//! guard-end 2
//! filter-start r#"tps"# ignore-chat count=10
//! filter-stop 5
//! cya
//! ```

use vstd::prelude::*;
use vstd::string::*;

use crate::text;

verus! {

// === Requests ===

/// A request, taken apart.
pub struct Request<'a> {
    /// The command with its id, if any. Replies start with it.
    pub header: &'a str,
    pub command: &'a str,
    /// The arguments, empty if there are none.
    pub args: &'a str,
}

/// The command of the request `s` may start at `start`: at the start of `s`, or after a command id
/// of 1 to 9 digits in square brackets and a space.
pub open spec fn command_starts_at(s: Seq<char>, start: int) -> bool {
    ||| start == 0
    ||| {
        &&& 4 <= start <= 12
        &&& start <= s.len()
        &&& s[0] == '['
        &&& text::is_number(s.subrange(1, start - 2))
        &&& s[start - 2] == ']'
        &&& s[start - 1] == ' '
    }
}

/// A character of a command.
pub open spec fn is_command_char(c: char) -> bool {
    c != ' ' && c != '['
}

/// `s` is a request whose command stands from `start` up to `end`. Arguments follow it after a
/// space, on the same line.
pub open spec fn is_request(s: Seq<char>, start: int, end: int) -> bool {
    &&& command_starts_at(s, start)
    &&& start < end <= s.len()
    &&& forall|i: int| start <= i < end ==> is_command_char(#[trigger] s[i])
    &&& end < s.len() ==> s[end] == ' ' && text::no_newline(s, end + 1, s.len() as int)
}

/// The arguments of a request whose command ends at `end`.
pub open spec fn args_after(s: Seq<char>, end: int) -> Seq<char> {
    if end < s.len() {
        s.skip(end + 1)
    } else {
        Seq::empty()
    }
}

/// There is one way at most to take a request apart.
pub proof fn request_is_unambiguous(s: Seq<char>, start: int, end: int, start2: int, end2: int)
    requires
        is_request(s, start, end),
        is_request(s, start2, end2),
    ensures
        start == start2,
        end == end2,
{
    if start != start2 {
        let (a, b) = if start < start2 {
            (start, start2)
        } else {
            (start2, start)
        };
        if a == 0 {
            assert(!is_command_char(s[0]));
        } else {
            assert(s.subrange(1, b - 2)[a - 3] == s[a - 2]);
        }
    }
    if end < end2 {
        assert(!is_command_char(s[end]));
    } else if end2 < end {
        assert(!is_command_char(s[end2]));
    }
}

/// Where the command of a request may start.
fn command_start(chars: &Vec<char>) -> (start: Option<usize>)
    ensures
        match start {
            Some(at) => {
                &&& at <= chars@.len()
                &&& command_starts_at(chars@, at as int)
                &&& at == 0 ==> chars@.len() == 0 || chars@[0] != '['
            },
            None => forall|at: int, end: int| !is_request(chars@, at, end),
        },
{
    if chars.len() == 0 || chars[0] != '[' {
        return Some(0);
    }
    let digits = text::digits_end(chars, 1);
    proof {
        assert(text::is_number(chars@.subrange(1, digits as int)) <==> digits > 1) by {
            let number = chars@.subrange(1, digits as int);
            assert forall|i: int| 0 <= i < number.len() implies text::is_digit(
                #[trigger] number[i],
            ) by {
                assert(text::is_digit(chars@[i + 1]));
            }
        }
        assert forall|at: int, end: int| is_request(chars@, at, end) implies at == digits + 2 by {
            if at == 0 {
                assert(!is_command_char(chars@[0]));
            } else {
                let number = chars@.subrange(1, at - 2);
                if digits < at - 2 {
                    assert(number[digits - 1] == chars@[digits as int]);
                    assert(text::is_digit(number[digits - 1]));
                } else if at - 2 < digits {
                    assert(text::is_digit(chars@[at - 2]));
                }
            }
        }
    }
    if digits > 1 && digits <= 10 && digits + 1 < chars.len() && chars[digits] == ']'
        && chars[digits + 1] == ' ' {
        Some(digits + 2)
    } else {
        None
    }
}

/// Takes a request apart. None if it is not a request.
pub fn parse_request(line: &str) -> (request: Option<Request<'_>>)
    ensures
        match request {
            Some(r) => exists|start: int, end: int| #[trigger]
                is_request(line@, start, end) && r.header@ == line@.take(end) && r.command@
                    == line@.subrange(start, end) && r.args@ == args_after(line@, end),
            None => forall|start: int, end: int| !is_request(line@, start, end),
        },
{
    let chars = text::chars_of(line);
    let start = match command_start(&chars) {
        Some(start) => start,
        None => {
            return None;
        },
    };
    let mut end: usize = start;
    while end < chars.len() && chars[end] != ' ' && chars[end] != '['
        invariant
            start <= end <= chars.len(),
            forall|i: int| start <= i < end ==> is_command_char(#[trigger] chars[i]),
        decreases chars.len() - end,
    {
        end = end + 1;
    }
    proof {
        assert forall|s: int, e: int| is_request(chars@, s, e) implies s == start && e == end by {
            if s != start {
                if s == 0 {
                    assert(is_command_char(chars@[0]));
                } else if start > 0 {
                    let (a, b) = if s < start {
                        (s, start as int)
                    } else {
                        (start as int, s)
                    };
                    assert(chars@.subrange(1, b - 2)[a - 3] == chars@[a - 2]);
                }
            }
            if e < end {
                assert(is_command_char(chars@[e]));
            } else if end < e {
                assert(is_command_char(chars@[end as int]));
            }
        }
    }
    if end == start {
        return None;
    }
    if end == chars.len() {
        assert(is_request(line@, start as int, end as int));
        return Some(
            Request {
                header: line,
                command: line.substring_char(start, end),
                args: line.substring_char(end, end),
            },
        );
    }
    if chars[end] != ' ' || !text::newline_free(&chars, end + 1) {
        return None;
    }
    assert(is_request(line@, start as int, end as int));
    Some(
        Request {
            header: line.substring_char(0, end),
            command: line.substring_char(start, end),
            args: line.substring_char(end + 1, chars.len()),
        },
    )
}

// === Arguments ===

/// `s` starts with the mark that opens a regex.
pub open spec fn opens_regex(s: Seq<char>) -> bool {
    text::occurs_at(s, "r#\""@, 0)
}

/// `s` is a regex, closed by the first `"# ` at `close`, and a console command on the same line.
pub open spec fn is_get_line(s: Seq<char>, close: int) -> bool {
    &&& opens_regex(s)
    &&& 3 <= close
    &&& close + 3 < s.len()
    &&& text::occurs_at(s, "\"# "@, close)
    &&& forall|i: int| 3 <= i < close ==> !#[trigger] text::occurs_at(s, "\"# "@, i)
    &&& text::no_newline(s, 3, s.len() as int)
}

/// There is one way at most to read the arguments of `get-line`.
pub proof fn get_line_is_unambiguous(s: Seq<char>, close: int, close2: int)
    requires
        is_get_line(s, close),
        is_get_line(s, close2),
    ensures
        close == close2,
{
    assert(text::occurs_at(s, "\"# "@, close) && text::occurs_at(s, "\"# "@, close2));
}

/// The arguments of `get-line`: a regex and a console command. None if they are something else.
pub fn get_line_args(args: &str) -> (parsed: Option<(&str, &str)>)
    ensures
        match parsed {
            Some((regex, slash)) => exists|close: int| #[trigger]
                is_get_line(args@, close) && regex@ == args@.subrange(3, close) && slash@
                    == args@.skip(close + 3),
            None => forall|close: int| !is_get_line(args@, close),
        },
{
    proof {
        reveal_strlit("r#\"");
        reveal_strlit("\"# ");
    }
    let chars = text::chars_of(args);
    if !text::literal_at(&chars, 0, "r#\"") || !text::newline_free(&chars, 3) {
        return None;
    }
    let mut close: usize = 3;
    while close < chars.len() && !text::literal_at(&chars, close, "\"# ")
        invariant
            3 <= close <= chars.len(),
            forall|i: int| 3 <= i < close ==> !#[trigger] text::occurs_at(chars@, "\"# "@, i),
        decreases chars.len() - close,
    {
        close = close + 1;
    }
    if chars.len() - close <= 3 {
        assert forall|at: int| !is_get_line(args@, at) by {
            if is_get_line(args@, at) {
                assert(text::occurs_at(args@, "\"# "@, at));
                if close < at {
                    assert(!text::occurs_at(args@, "\"# "@, close as int));
                }
            }
        }
        return None;
    }
    assert(is_get_line(args@, close as int));
    Some((args.substring_char(3, close), args.substring_char(close + 3, chars.len())))
}

/// `s` is a regex and nothing else.
pub open spec fn is_lone_regex(s: Seq<char>) -> bool {
    &&& opens_regex(s)
    &&& 5 <= s.len()
    &&& text::occurs_at(s, "\"#"@, s.len() - 2)
    &&& text::no_newline(s, 3, s.len() - 2)
}

/// `s` is a regex, closed by the `"#` at `close`, and a duration in seconds, such as `50s`.
pub open spec fn is_timed_regex(s: Seq<char>, close: int) -> bool {
    &&& opens_regex(s)
    &&& 3 <= close
    &&& close + 5 <= s.len()
    &&& text::occurs_at(s, "\"# "@, close)
    &&& text::is_number(s.subrange(close + 3, s.len() - 1))
    &&& s.last() == 's'
    &&& text::no_newline(s, 3, close)
}

/// There is one way at most to read the arguments of `guard-begin`.
pub proof fn guard_begin_is_unambiguous(s: Seq<char>, close: int, close2: int)
    requires
        is_timed_regex(s, close),
    ensures
        !is_lone_regex(s),
        is_timed_regex(s, close2) ==> close == close2,
{
    reveal_strlit("\"#");
    reveal_strlit("\"# ");
    if is_lone_regex(s) {
        assert(s.subrange(s.len() - 2, s.len() as int)[1] == s.last());
    }
    if is_timed_regex(s, close2) && close != close2 {
        let (a, b) = if close < close2 {
            (close, close2)
        } else {
            (close2, close)
        };
        assert(s.subrange(b, b + 3)[0] == s[b]);
        assert(s.subrange(b, b + 3)[1] == s[b + 1]);
        assert(s.subrange(b, b + 3)[2] == s[b + 2]);
        assert(s.subrange(a, a + 3)[1] == s[a + 1]);
        assert(s.subrange(a, a + 3)[2] == s[a + 2]);
        if b >= a + 3 {
            assert(s.subrange(a + 3, s.len() - 1)[b - a - 3] == s[b]);
        }
    }
}

/// Whether nothing but digits stands in `chars` from `from` up to `to`, and at least one.
fn number_at(chars: &Vec<char>, from: usize, to: usize) -> (number: bool)
    requires
        from <= to <= chars.len(),
    ensures
        number == text::is_number(chars@.subrange(from as int, to as int)),
{
    let end = text::digits_end(chars, from);
    let ghost part = chars@.subrange(from as int, to as int);
    proof {
        if from < to && end >= to {
            assert forall|i: int| 0 <= i < part.len() implies text::is_digit(
                #[trigger] part[i],
            ) by {
                assert(text::is_digit(chars@[from + i]));
            }
        }
        if end < to {
            assert(part[end - from] == chars@[end as int]);
        }
    }
    from < to && end >= to
}

/// The arguments of `guard-begin`: a regex, and the digits of a duration in seconds, if any. None
/// if they are something else.
pub fn guard_begin_args(args: &str) -> (parsed: Option<(&str, Option<&str>)>)
    ensures
        match parsed {
            Some((regex, None)) => is_lone_regex(args@) && regex@ == args@.subrange(
                3,
                args@.len() - 2,
            ),
            Some((regex, Some(seconds))) => exists|close: int| #[trigger]
                is_timed_regex(args@, close) && regex@ == args@.subrange(3, close) && seconds@
                    == args@.subrange(close + 3, args@.len() - 1),
            None => !is_lone_regex(args@) && forall|close: int| !is_timed_regex(args@, close),
        },
{
    proof {
        reveal_strlit("r#\"");
        reveal_strlit("\"# ");
        reveal_strlit("\"#");
    }
    let chars = text::chars_of(args);
    let len: usize = chars.len();
    if !text::literal_at(&chars, 0, "r#\"") || len < 5 {
        return None;
    }
    if text::literal_at(&chars, len - 2, "\"#") {
        assert(args@.subrange(len - 2, len as int)[1] == args@.last());
        let mut i: usize = 3;
        while i < len - 2
            invariant
                3 <= i <= len - 2,
                len == chars.len(),
                chars@ == args@,
                args@.last() == '#',
                text::no_newline(chars@, 3, i as int),
            decreases len - i,
        {
            if chars[i] == '\n' {
                return None;
            }
            i = i + 1;
        }
        return Some((args.substring_char(3, len - 2), None));
    }
    let mut close: usize = 3;
    while close < len
        invariant
            3 <= close <= len,
            len == chars.len(),
            chars@ == args@,
            text::no_newline(chars@, 3, close as int),
            opens_regex(args@),
            !is_lone_regex(args@),
            forall|i: int| 3 <= i < close ==> !#[trigger] is_timed_regex(args@, i),
            "\"# "@.len() == 3,
        decreases len - close,
    {
        if text::literal_at(&chars, close, "\"# ") && len - close >= 5 && chars[len - 1] == 's'
            && number_at(&chars, close + 3, len - 1) {
            assert(is_timed_regex(args@, close as int));
            return Some(
                (args.substring_char(3, close), Some(args.substring_char(close + 3, len - 1))),
            );
        }
        assert(!is_timed_regex(args@, close as int));
        if chars[close] == '\n' {
            assert forall|i: int| !is_timed_regex(args@, i) by {
                if is_timed_regex(args@, i) && close < i {
                    assert(chars@[close as int] != '\n');
                }
            }
            return None;
        }
        close = close + 1;
    }
    None
}

/// `s` is the number of a filter, and a duration in seconds that starts after `space`.
pub open spec fn is_timed_id(s: Seq<char>, space: int) -> bool {
    &&& 0 <= space
    &&& space + 2 < s.len()
    &&& s[space] == ' '
    &&& text::is_number(s.take(space))
    &&& text::is_number(s.subrange(space + 1, s.len() - 1))
    &&& s.last() == 's'
}

/// There is one way at most to read the arguments of `guard-renew`.
pub proof fn guard_renew_is_unambiguous(s: Seq<char>, space: int, space2: int)
    requires
        is_timed_id(s, space),
    ensures
        !text::is_number(s),
        is_timed_id(s, space2) ==> space == space2,
{
    assert(!text::is_digit(s[space]));
    if is_timed_id(s, space2) {
        if space < space2 {
            assert(text::is_digit(s.take(space2)[space]));
        } else if space2 < space {
            assert(text::is_digit(s.take(space)[space2]));
        }
    }
}

/// The arguments of `guard-renew`: the digits of a filter id, and those of a duration in seconds,
/// if any. None if they are something else.
pub fn guard_renew_args(args: &str) -> (parsed: Option<(&str, Option<&str>)>)
    ensures
        match parsed {
            Some((id, None)) => text::is_number(args@) && id@ == args@,
            Some((id, Some(seconds))) => exists|space: int| #[trigger]
                is_timed_id(args@, space) && id@ == args@.take(space) && seconds@
                    == args@.subrange(space + 1, args@.len() - 1),
            None => !text::is_number(args@) && forall|space: int| !is_timed_id(args@, space),
        },
{
    let chars = text::chars_of(args);
    let len: usize = chars.len();
    if is_filter_id(args) {
        return Some((args, None));
    }
    let space = text::digits_end(&chars, 0);
    proof {
        assert forall|at: int| is_timed_id(args@, at) implies at == space by {
            if space < at {
                assert(text::is_digit(args@.take(at)[space as int]));
            } else if at < space {
                assert(text::is_digit(chars[at]));
            }
        }
        assert(args@.subrange(0, space as int) =~= args@.take(space as int));
    }
    if len - space < 3 || chars[space] != ' ' || chars[len - 1] != 's' || !number_at(
        &chars,
        0,
        space,
    ) || !number_at(&chars, space + 1, len - 1) {
        return None;
    }
    assert(is_timed_id(args@, space as int));
    Some((args.substring_char(0, space), Some(args.substring_char(space + 1, len - 1))))
}

/// Whether the argument is the number of a filter. That is all that `guard-end` and `filter-stop`
/// take.
pub fn is_filter_id(args: &str) -> (id: bool)
    ensures
        id == text::is_number(args@),
{
    let chars = text::chars_of(args);
    assert(args@.subrange(0, args@.len() as int) =~= args@);
    number_at(&chars, 0, chars.len())
}

/// The value of a number, if it is no more than `limit`.
pub fn number_up_to(digits: &str, limit: u64) -> (value: Option<u64>)
    requires
        text::is_number(digits@),
    ensures
        value == if text::number_value(digits@) <= limit {
            Some(text::number_value(digits@) as u64)
        } else {
            None
        },
{
    let chars = text::chars_of(digits);
    assert(digits@.subrange(0, digits@.len() as int) =~= digits@);
    text::parse_number(&chars, 0, chars.len(), limit)
}

// === Options of `filter-start` ===

/// The options of an output filter.
#[derive(Clone, Copy, Debug, PartialEq, Eq)]
pub struct FilterOptions {
    /// Should chat lines be skipped?
    pub ignore_chat: bool,
    /// How many lines can match. None means unrestricted.
    pub count: Option<i32>,
    /// How many lines can not match. None means unrestricted.
    pub fail: Option<i32>,
}

/// The limit that the digits stand for. One that is too large is no limit.
pub open spec fn limit_value(digits: Seq<char>) -> Option<i32> {
    if text::number_value(digits) <= i32::MAX {
        Some(text::number_value(digits) as i32)
    } else {
        None
    }
}

/// `s` is `name` followed by a number.
pub open spec fn sets_limit(s: Seq<char>, name: Seq<char>) -> bool {
    text::occurs_at(s, name, 0) && text::is_number(s.skip(name.len() as int))
}

/// The options once `word` is read too. None if it is not an option.
pub open spec fn with_option(options: FilterOptions, word: Seq<char>) -> Option<FilterOptions> {
    if word == "ignore-chat"@ {
        Some(FilterOptions { ignore_chat: true, ..options })
    } else if sets_limit(word, "count="@) {
        Some(FilterOptions { count: limit_value(word.skip("count="@.len() as int)), ..options })
    } else if sets_limit(word, "fail="@) {
        Some(FilterOptions { fail: limit_value(word.skip("fail="@.len() as int)), ..options })
    } else {
        None
    }
}

/// Where the word ends that starts at `at`: at the next space, or at the end of `s`.
pub open spec fn word_end(s: Seq<char>, at: int) -> int
    decreases s.len() - at,
{
    if 0 <= at < s.len() && s[at] != ' ' {
        word_end(s, at + 1)
    } else {
        at
    }
}

/// A word ends no earlier than it starts, and no later than the text.
pub proof fn word_end_bounds(s: Seq<char>, at: int)
    requires
        0 <= at <= s.len(),
    ensures
        at <= word_end(s, at) <= s.len(),
    decreases s.len() - at,
{
    if at < s.len() && s[at] != ' ' {
        word_end_bounds(s, at + 1);
    }
}

/// The options once the rest of `s` from `at` on is read too: any number of options, each after a
/// space, of which the last of a kind counts. None if it is something else.
pub open spec fn options_from(s: Seq<char>, at: int, options: FilterOptions) -> Option<
    FilterOptions,
>
    decreases s.len() - at,
{
    if at >= s.len() {
        Some(options)
    } else if at < 0 || s[at] != ' ' {
        None
    } else {
        proof {
            word_end_bounds(s, at + 1);
        }
        match with_option(options, s.subrange(at + 1, word_end(s, at + 1))) {
            Some(more) => options_from(s, word_end(s, at + 1), more),
            None => None,
        }
    }
}

/// No option given.
pub open spec fn no_options() -> FilterOptions {
    FilterOptions { ignore_chat: false, count: None, fail: None }
}

/// `s` is a regex, closed by the `"#` at `close`, and options.
pub open spec fn is_filter_start(s: Seq<char>, close: int) -> bool {
    &&& opens_regex(s)
    &&& 3 <= close
    &&& text::occurs_at(s, "\"#"@, close)
    &&& options_from(s, close + 2, no_options()) is Some
    &&& text::no_newline(s, 3, close)
}

/// What options are made of holds no quotation mark.
proof fn options_are_unquoted(s: Seq<char>, at: int, options: FilterOptions, i: int)
    requires
        0 <= at <= i < s.len(),
        options_from(s, at, options) is Some,
    ensures
        s[i] != '"',
    decreases s.len() - at,
{
    let end = word_end(s, at + 1);
    word_end_bounds(s, at + 1);
    if i >= end {
        let word = s.subrange(at + 1, end);
        options_are_unquoted(s, end, with_option(options, word)->0, i);
    } else if i > at {
        let word = s.subrange(at + 1, end);
        let c = word[i - at - 1];
        assert(c == s[i]);
        reveal_strlit("ignore-chat");
        reveal_strlit("count=");
        reveal_strlit("fail=");
        if word != "ignore-chat"@ {
            let name = if sets_limit(word, "count="@) {
                "count="@
            } else {
                "fail="@
            };
            let at_word = i - at - 1;
            if at_word < name.len() {
                assert(word.subrange(0, name.len() as int)[at_word] == c);
                assert(c == name[at_word]);
            } else {
                assert(text::is_digit(word.skip(name.len() as int)[at_word - name.len()]));
            }
        }
    }
}

/// There is one way at most to read the arguments of `filter-start`.
pub proof fn filter_start_is_unambiguous(s: Seq<char>, close: int, close2: int)
    requires
        is_filter_start(s, close),
        is_filter_start(s, close2),
    ensures
        close == close2,
{
    reveal_strlit("\"#");
    if close != close2 {
        let (a, b) = if close < close2 {
            (close, close2)
        } else {
            (close2, close)
        };
        assert(s.subrange(a, a + 2)[1] == s[a + 1]);
        assert(s.subrange(b, b + 2)[0] == s[b]);
        options_are_unquoted(s, a + 2, no_options(), b);
    }
}

/// The limit that a word sets, if it is `name` followed by a number.
fn limit_of(word: &str, name: &str) -> (limit: Option<Option<i32>>)
    ensures
        limit == if sets_limit(word@, name@) {
            Some(limit_value(word@.skip(name@.len() as int)))
        } else {
            None
        },
{
    let chars = text::chars_of(word);
    if !text::literal_at(&chars, 0, name) {
        return None;
    }
    let from = name.unicode_len();
    assert(word@.subrange(from as int, word@.len() as int) =~= word@.skip(from as int));
    if !number_at(&chars, from, chars.len()) {
        return None;
    }
    match text::parse_number(&chars, from, chars.len(), i32::MAX as u64) {
        Some(value) => Some(Some(value as i32)),
        None => Some(None),
    }
}

/// Reads one option.
fn read_option(options: FilterOptions, word: &str) -> (more: Option<FilterOptions>)
    ensures
        more == with_option(options, word@),
{
    if text::same_text(word, "ignore-chat") {
        return Some(FilterOptions { ignore_chat: true, ..options });
    }
    if let Some(count) = limit_of(word, "count=") {
        return Some(FilterOptions { count: count, ..options });
    }
    if let Some(fail) = limit_of(word, "fail=") {
        return Some(FilterOptions { fail: fail, ..options });
    }
    None
}

/// Reads the options that stand in `args` from `from` on. `chars` are its characters.
fn read_options(args: &str, chars: &Vec<char>, from: usize) -> (options: Option<FilterOptions>)
    requires
        chars@ == args@,
        from <= chars.len(),
    ensures
        options == options_from(args@, from as int, no_options()),
{
    let mut options = FilterOptions { ignore_chat: false, count: None, fail: None };
    let mut at: usize = from;
    while at < chars.len()
        invariant
            at <= chars.len(),
            chars@ == args@,
            options_from(args@, at as int, options) == options_from(
                args@,
                from as int,
                no_options(),
            ),
        decreases chars.len() - at,
    {
        if chars[at] != ' ' {
            return None;
        }
        let mut end: usize = at + 1;
        while end < chars.len() && chars[end] != ' '
            invariant
                at + 1 <= end <= chars.len(),
                chars@ == args@,
                word_end(args@, end as int) == word_end(args@, at + 1),
            decreases chars.len() - end,
        {
            end = end + 1;
        }
        match read_option(options, args.substring_char(at + 1, end)) {
            Some(more) => {
                options = more;
            },
            None => {
                return None;
            },
        }
        at = end;
    }
    Some(options)
}

/// The arguments of `filter-start`: a regex and options. None if they are something else.
pub fn filter_start_args(args: &str) -> (parsed: Option<(&str, FilterOptions)>)
    ensures
        match parsed {
            Some((regex, options)) => exists|close: int| #[trigger]
                is_filter_start(args@, close) && regex@ == args@.subrange(3, close)
                    && options_from(args@, close + 2, no_options()) == Some(options),
            None => forall|close: int| !is_filter_start(args@, close),
        },
{
    proof {
        reveal_strlit("r#\"");
        reveal_strlit("\"#");
    }
    let chars = text::chars_of(args);
    if !text::literal_at(&chars, 0, "r#\"") {
        return None;
    }
    let mut close: usize = 3;
    while close < chars.len()
        invariant
            3 <= close <= chars.len(),
            chars@ == args@,
            opens_regex(args@),
            text::no_newline(chars@, 3, close as int),
            forall|i: int| 3 <= i < close ==> !#[trigger] is_filter_start(args@, i),
            "\"#"@.len() == 2,
        decreases chars.len() - close,
    {
        if text::literal_at(&chars, close, "\"#") {
            if let Some(options) = read_options(args, &chars, close + 2) {
                assert(is_filter_start(args@, close as int));
                return Some((args.substring_char(3, close), options));
            }
        }
        assert(!is_filter_start(args@, close as int));
        if chars[close] == '\n' {
            assert forall|i: int| !is_filter_start(args@, i) by {
                if is_filter_start(args@, i) && close < i {
                    assert(chars@[close as int] != '\n');
                }
            }
            return None;
        }
        close = close + 1;
    }
    None
}

// === What the language is ===

/// A command id of 1 to 9 digits, or none.
pub open spec fn is_command_id(id: Option<Seq<char>>) -> bool {
    id matches Some(digits) ==> 1 <= digits.len() <= 9 && forall|i: int|
        0 <= i < digits.len() ==> '0' <= #[trigger] digits[i] && digits[i] <= '9'
}

/// What stands before the command: the command id in square brackets and a space, if there is an id.
pub open spec fn before_command(id: Option<Seq<char>>) -> Seq<char> {
    match id {
        Some(digits) => seq!['['] + digits + seq![']', ' '],
        None => Seq::empty(),
    }
}

/// A name that a command can have.
pub open spec fn is_command_name(name: Seq<char>) -> bool {
    name.len() > 0 && forall|i: int|
        0 <= i < name.len() ==> #[trigger] name[i] != ' ' && name[i] != '['
}

/// A text on one line.
pub open spec fn is_one_line(s: Seq<char>) -> bool {
    forall|i: int| 0 <= i < s.len() ==> #[trigger] s[i] != '\n'
}

/// A line with this command id, command and arguments.
pub open spec fn request_line(
    id: Option<Seq<char>>,
    name: Seq<char>,
    args: Option<Seq<char>>,
) -> Seq<char> {
    before_command(id) + name + match args {
        Some(args) => seq![' '] + args,
        None => Seq::empty(),
    }
}

/// A line that is made of a command id, a command and arguments on one line is a request, and is
/// taken apart into just these.
pub proof fn a_request_reads_back(
    id: Option<Seq<char>>,
    name: Seq<char>,
    args: Option<Seq<char>>,
)
    requires
        is_command_id(id),
        is_command_name(name),
        args matches Some(a) ==> is_one_line(a),
    ensures
        ({
            let line = request_line(id, name, args);
            let start = before_command(id).len() as int;
            let end = start + name.len();
            &&& is_request(line, start, end)
            &&& line.take(end) == before_command(id) + name
            &&& line.subrange(start, end) == name
            &&& args_after(line, end) == match args {
                Some(a) => a,
                None => Seq::empty(),
            }
        }),
{
    let line = request_line(id, name, args);
    let before = before_command(id);
    let start = before.len() as int;
    let end = start + name.len();
    assert(line.take(end) =~= before + name);
    assert(line.subrange(start, end) =~= name);
    assert forall|i: int| start <= i < end implies is_command_char(#[trigger] line[i]) by {
        assert(line[i] == name[i - start]);
    }
    if let Some(digits) = id {
        let number = line.subrange(1, start - 2);
        assert(number =~= digits);
        assert forall|i: int| 0 <= i < number.len() implies text::is_digit(
            #[trigger] number[i],
        ) by {
            assert(number[i] == digits[i]);
        }
        assert(line[start - 2] == before[start - 2]);
        assert(line[start - 1] == before[start - 1]);
    }
    match args {
        Some(a) => {
            assert(line.skip(end + 1) =~= a);
            assert forall|i: int| end + 1 <= i < line.len() implies #[trigger] line[i] != '\n' by {
                assert(line[i] == a[i - end - 1]);
            }
        },
        None => {
            assert(line.len() == end);
        },
    }
}

/// Whatever is a request is made of a command id, a command and arguments on one line.
pub proof fn nothing_else_is_a_request(s: Seq<char>, start: int, end: int)
    requires
        is_request(s, start, end),
    ensures
        exists|id: Option<Seq<char>>, args: Option<Seq<char>>|
            {
                &&& s == #[trigger] request_line(id, s.subrange(start, end), args)
                &&& is_command_id(id)
                &&& is_command_name(s.subrange(start, end))
                &&& args matches Some(a) ==> is_one_line(a)
                &&& start == before_command(id).len()
            },
{
    let name = s.subrange(start, end);
    let id = if start == 0 {
        None
    } else {
        Some(s.subrange(1, start - 2))
    };
    let args = if end < s.len() {
        Some(s.skip(end + 1))
    } else {
        None
    };
    assert forall|i: int| 0 <= i < name.len() implies #[trigger] name[i] != ' ' && name[i] != '[' by {
        assert(is_command_char(s[start + i]));
    }
    if let Some(digits) = id {
        assert forall|i: int| 0 <= i < digits.len() implies '0' <= #[trigger] digits[i] && digits[i]
            <= '9' by {
            assert(text::is_digit(digits[i]));
        }
    }
    if let Some(a) = args {
        assert forall|i: int| 0 <= i < a.len() implies #[trigger] a[i] != '\n' by {
            assert(s[end + 1 + i] != '\n');
        }
    }
    assert(s =~= request_line(id, name, args));
}

/// A regex as a client writes it, and what follows it.
pub open spec fn quoted(pattern: Seq<char>, rest: Seq<char>) -> Seq<char> {
    seq!['r', '#', '"'] + pattern + seq!['"', '#'] + rest
}

/// The marks around a regex, character by character.
proof fn marks_spelled_out()
    ensures
        "r#\""@ == seq!['r', '#', '"'],
        "\"#"@ == seq!['"', '#'],
        "\"# "@ == seq!['"', '#', ' '],
{
    reveal_strlit("r#\"");
    reveal_strlit("\"#");
    reveal_strlit("\"# ");
    assert("r#\""@ =~= seq!['r', '#', '"']);
    assert("\"#"@ =~= seq!['"', '#']);
    assert("\"# "@ =~= seq!['"', '#', ' ']);
}

/// A regex, a space and a console command on one line are what `get-line` takes. The regex ends at
/// the first mark that a space follows.
pub proof fn get_line_reads_back(pattern: Seq<char>, slash: Seq<char>)
    requires
        is_one_line(pattern),
        is_one_line(slash),
        slash.len() > 0,
        forall|i: int|
            0 <= i < pattern.len() ==> !text::occurs_at(
                pattern + seq!['"', '#', ' '],
                seq!['"', '#', ' '],
                i,
            ),
    ensures
        ({
            let args = quoted(pattern, seq![' '] + slash);
            let close = 3 + pattern.len() as int;
            &&& is_get_line(args, close)
            &&& args.subrange(3, close) == pattern
            &&& args.skip(close + 3) == slash
        }),
{
    marks_spelled_out();
    let args = quoted(pattern, seq![' '] + slash);
    let close = 3 + pattern.len() as int;
    let mark = seq!['"', '#', ' '];
    let closed = pattern + mark;
    assert(args.subrange(0, 3) =~= seq!['r', '#', '"']);
    assert(args.subrange(close, close + 3) =~= mark);
    assert(args.subrange(3, close) =~= pattern);
    assert(args.skip(close + 3) =~= slash);
    assert forall|i: int| 0 <= i < closed.len() implies args[i + 3] == closed[i] by {}
    assert forall|i: int| 3 <= i < close implies !#[trigger] text::occurs_at(args, mark, i) by {
        assert(args.subrange(i, i + 3) =~= closed.subrange(i - 3, i));
        assert(!text::occurs_at(closed, mark, i - 3));
    }
    assert forall|i: int| 3 <= i < args.len() implies #[trigger] args[i] != '\n' by {
        if i < close {
            assert(args[i] == pattern[i - 3]);
        } else if i >= close + 3 {
            assert(args[i] == slash[i - close - 3]);
        }
    }
}

/// `get-line` takes nothing but a regex, a space and a console command on one line.
pub proof fn get_line_takes_nothing_else(s: Seq<char>, close: int)
    requires
        is_get_line(s, close),
    ensures
        s == quoted(s.subrange(3, close), seq![' '] + s.skip(close + 3)),
        s.skip(close + 3).len() > 0,
        is_one_line(s.subrange(3, close)),
        is_one_line(s.skip(close + 3)),
{
    marks_spelled_out();
    let slash = s.skip(close + 3);
    text::a_part_stands_where_its_characters_do(s, "r#\""@, 0);
    text::a_part_stands_where_its_characters_do(s, "\"# "@, close);
    let open = seq!['r', '#', '"'];
    let mark = seq!['"', '#', ' '];
    assert(s[0int + 0] == open[0] && s[0int + 1] == open[1] && s[0int + 2] == open[2]);
    assert(s[close + 0] == mark[0] && s[close + 1] == mark[1] && s[close + 2] == mark[2]);
    assert(s =~= quoted(s.subrange(3, close), seq![' '] + slash));
    assert forall|i: int| 0 <= i < slash.len() implies #[trigger] slash[i] != '\n' by {
        assert(s[close + 3 + i] != '\n');
    }
}

/// A regex on one line is what `guard-begin` takes, alone or with a space, the digits of a duration
/// in seconds and an `s`.
pub proof fn guard_begin_reads_back(pattern: Seq<char>, digits: Seq<char>)
    requires
        is_one_line(pattern),
        text::is_number(digits),
    ensures
        ({
            let lone = quoted(pattern, Seq::empty());
            let timed = quoted(pattern, seq![' '] + digits + seq!['s']);
            let close = 3 + pattern.len() as int;
            &&& is_lone_regex(lone)
            &&& lone.subrange(3, lone.len() - 2) == pattern
            &&& is_timed_regex(timed, close)
            &&& timed.subrange(3, close) == pattern
            &&& timed.subrange(close + 3, timed.len() - 1) == digits
        }),
{
    marks_spelled_out();
    let lone = quoted(pattern, Seq::empty());
    let timed = quoted(pattern, seq![' '] + digits + seq!['s']);
    let close = 3 + pattern.len() as int;
    assert(lone.subrange(0, 3) =~= seq!['r', '#', '"']);
    assert(lone.subrange(close, close + 2) =~= seq!['"', '#']);
    assert(lone.subrange(3, lone.len() - 2) =~= pattern);
    assert(timed.subrange(0, 3) =~= seq!['r', '#', '"']);
    assert(timed.subrange(close, close + 3) =~= seq!['"', '#', ' ']);
    assert(timed.subrange(3, close) =~= pattern);
    assert(timed.subrange(close + 3, timed.len() - 1) =~= digits);
    assert forall|i: int| 3 <= i < close implies #[trigger] lone[i] != '\n' by {
        assert(lone[i] == pattern[i - 3]);
    }
    assert forall|i: int| 3 <= i < close implies #[trigger] timed[i] != '\n' by {
        assert(timed[i] == pattern[i - 3]);
    }
}

/// `guard-begin` takes nothing but a regex, alone or with a duration.
pub proof fn guard_begin_takes_nothing_else(s: Seq<char>, close: int)
    ensures
        is_lone_regex(s) ==> s == quoted(s.subrange(3, s.len() - 2), Seq::empty()) && is_one_line(
            s.subrange(3, s.len() - 2),
        ),
        is_timed_regex(s, close) ==> {
            let digits = s.subrange(close + 3, s.len() - 1);
            &&& s == quoted(s.subrange(3, close), seq![' '] + digits + seq!['s'])
            &&& is_one_line(s.subrange(3, close))
            &&& text::is_number(digits)
        },
{
    marks_spelled_out();
    let open = seq!['r', '#', '"'];
    let end = seq!['"', '#'];
    let mark = seq!['"', '#', ' '];
    text::a_part_stands_where_its_characters_do(s, open, 0);
    text::a_part_stands_where_its_characters_do(s, end, s.len() - 2);
    text::a_part_stands_where_its_characters_do(s, mark, close);
    if is_lone_regex(s) {
        let n = s.len() as int;
        assert(s[0int + 0] == open[0] && s[0int + 1] == open[1] && s[0int + 2] == open[2]);
        assert(s[n - 2 + 0] == end[0] && s[n - 2 + 1] == end[1]);
        assert(s =~= quoted(s.subrange(3, n - 2), Seq::empty()));
    }
    if is_timed_regex(s, close) {
        let digits = s.subrange(close + 3, s.len() - 1);
        assert(s[0int + 0] == open[0] && s[0int + 1] == open[1] && s[0int + 2] == open[2]);
        assert(s[close + 0] == mark[0] && s[close + 1] == mark[1] && s[close + 2] == mark[2]);
        assert(s =~= quoted(s.subrange(3, close), seq![' '] + digits + seq!['s']));
    }
}

/// The digits of an id are what `guard-renew` takes, alone or with a space, the digits of a duration
/// in seconds and an `s`, and nothing else.
pub proof fn guard_renew_reads_back(id: Seq<char>, digits: Seq<char>, s: Seq<char>, space: int)
    ensures
        text::is_number(id) && text::is_number(digits) ==> {
            let args = id + (seq![' '] + digits + seq!['s']);
            &&& is_timed_id(args, id.len() as int)
            &&& args.take(id.len() as int) == id
            &&& args.subrange(id.len() as int + 1, args.len() - 1) == digits
        },
        is_timed_id(s, space) ==> {
            &&& s == s.take(space) + (seq![' '] + s.subrange(space + 1, s.len() - 1) + seq!['s'])
            &&& text::is_number(s.take(space))
            &&& text::is_number(s.subrange(space + 1, s.len() - 1))
        },
{
    let args = id + (seq![' '] + digits + seq!['s']);
    assert(args.take(id.len() as int) =~= id);
    assert(args.subrange(id.len() as int + 1, args.len() - 1) =~= digits);
    if is_timed_id(s, space) {
        assert(s =~= s.take(space) + (seq![' '] + s.subrange(space + 1, s.len() - 1) + seq!['s']));
    }
}

// === What options mean ===

proof fn word_end_later(p: Seq<char>, s: Seq<char>, at: int)
    requires
        0 <= at <= s.len(),
    ensures
        word_end(p + s, p.len() + at) == p.len() + word_end(s, at),
    decreases s.len() - at,
{
    if at < s.len() {
        assert((p + s)[p.len() + at] == s[at]);
        if s[at] != ' ' {
            word_end_later(p, s, at + 1);
        }
    }
}

/// What options mean does not depend on what comes before them.
proof fn options_later(p: Seq<char>, s: Seq<char>, at: int, options: FilterOptions)
    requires
        0 <= at <= s.len(),
    ensures
        options_from(p + s, p.len() + at, options) == options_from(s, at, options),
    decreases s.len() - at,
{
    if at < s.len() {
        assert((p + s)[p.len() + at] == s[at]);
        if s[at] == ' ' {
            word_end_later(p, s, at + 1);
            word_end_bounds(s, at + 1);
            let end = word_end(s, at + 1);
            let word = s.subrange(at + 1, end);
            assert((p + s).subrange(p.len() + at + 1, p.len() + end) =~= word);
            if let Some(more) = with_option(options, word) {
                options_later(p, s, end, more);
            }
        }
    }
}

/// The word ends at the first space.
proof fn word_end_here(s: Seq<char>, at: int, end: int)
    requires
        0 <= at <= end <= s.len(),
        forall|i: int| at <= i < end ==> #[trigger] s[i] != ' ',
        end < s.len() ==> s[end] == ' ',
    ensures
        word_end(s, at) == end,
    decreases end - at,
{
    if at < end {
        assert(s[at] != ' ');
        word_end_here(s, at + 1, end);
    }
}

/// Options are read one after the other: each is a space and a word, and what follows is read with
/// what the word has set. Without any, nothing more is set; whatever does not start with a space is
/// no option.
pub proof fn options_are_read_one_by_one(
    word: Seq<char>,
    rest: Seq<char>,
    options: FilterOptions,
)
    requires
        forall|i: int| 0 <= i < word.len() ==> #[trigger] word[i] != ' ',
    ensures
        options_from(Seq::empty(), 0, options) == Some(options),
        rest.len() > 0 && rest[0] != ' ' ==> options_from(rest, 0, options) is None,
        rest.len() == 0 || rest[0] == ' ' ==> options_from(seq![' '] + word + rest, 0, options)
            == match with_option(options, word) {
            Some(more) => options_from(rest, 0, more),
            None => None,
        },
{
    let s = seq![' '] + word + rest;
    let end = 1 + word.len() as int;
    if rest.len() == 0 || rest[0] == ' ' {
        assert forall|i: int| 1 <= i < end implies #[trigger] s[i] != ' ' by {
            assert(s[i] == word[i - 1]);
        }
        word_end_here(s, 1, end);
        assert(s.subrange(1, end) =~= word);
        if let Some(more) = with_option(options, word) {
            options_later(seq![' '] + word, rest, 0, more);
        }
    }
}

/// The names of the options, character by character.
proof fn options_spelled_out()
    ensures
        "ignore-chat"@ == seq!['i', 'g', 'n', 'o', 'r', 'e', '-', 'c', 'h', 'a', 't'],
        "count="@ == seq!['c', 'o', 'u', 'n', 't', '='],
        "fail="@ == seq!['f', 'a', 'i', 'l', '='],
{
    reveal_strlit("ignore-chat");
    reveal_strlit("count=");
    reveal_strlit("fail=");
    assert("ignore-chat"@ =~= seq!['i', 'g', 'n', 'o', 'r', 'e', '-', 'c', 'h', 'a', 't']);
    assert("count="@ =~= seq!['c', 'o', 'u', 'n', 't', '=']);
    assert("fail="@ =~= seq!['f', 'a', 'i', 'l', '=']);
}

/// The limit that these digits set: the number that they stand for if it is below 2^31, and no limit
/// otherwise.
pub open spec fn is_limit(digits: Seq<char>, limit: Option<i32>) -> bool {
    let value = text::number_value(digits);
    if value < 0x8000_0000 {
        limit matches Some(n) && n == value
    } else {
        limit is None
    }
}

/// `count=` and `fail=` with a number set that limit and nothing else, and `ignore-chat` has chat
/// ignored and sets nothing else.
pub proof fn each_option_sets_what_it_names(options: FilterOptions, digits: Seq<char>)
    requires
        text::is_number(digits),
    ensures
        with_option(
            options,
            seq!['i', 'g', 'n', 'o', 'r', 'e', '-', 'c', 'h', 'a', 't'],
        ) matches Some(more) && more.ignore_chat && more.count == options.count && more.fail
            == options.fail,
        with_option(options, seq!['c', 'o', 'u', 'n', 't', '='] + digits) matches Some(more)
            && is_limit(digits, more.count) && more.fail == options.fail && more.ignore_chat
            == options.ignore_chat,
        with_option(options, seq!['f', 'a', 'i', 'l', '='] + digits) matches Some(more) && is_limit(
            digits,
            more.fail,
        ) && more.count == options.count && more.ignore_chat == options.ignore_chat,
        !no_options().ignore_chat,
        no_options().count is None,
        no_options().fail is None,
{
    options_spelled_out();
    let ignore = seq!['i', 'g', 'n', 'o', 'r', 'e', '-', 'c', 'h', 'a', 't'];
    let count = seq!['c', 'o', 'u', 'n', 't', '='];
    let fail = seq!['f', 'a', 'i', 'l', '='];
    let counted = count + digits;
    let failed = fail + digits;
    assert(counted.subrange(0, 6) =~= count);
    assert(counted.skip(6) =~= digits);
    assert(failed.subrange(0, 5) =~= fail);
    assert(failed.skip(5) =~= digits);
    assert(counted[0] == 'c' && ignore[0] == 'i');
    assert(failed[0] == 'f');
    if text::occurs_at(failed, count, 0) {
        assert(failed.subrange(0, 6)[0] == failed[0]);
    }
}

/// Nothing else is an option.
pub proof fn nothing_else_is_an_option(options: FilterOptions, word: Seq<char>)
    requires
        with_option(options, word) is Some,
    ensures
        ({
            ||| word == seq!['i', 'g', 'n', 'o', 'r', 'e', '-', 'c', 'h', 'a', 't']
            ||| exists|digits: Seq<char>| #[trigger]
                text::is_number(digits) && word == seq!['c', 'o', 'u', 'n', 't', '='] + digits
            ||| exists|digits: Seq<char>| #[trigger]
                text::is_number(digits) && word == seq!['f', 'a', 'i', 'l', '='] + digits
        }),
{
    options_spelled_out();
    let count = seq!['c', 'o', 'u', 'n', 't', '='];
    let fail = seq!['f', 'a', 'i', 'l', '='];
    if sets_limit(word, count) {
        let digits = word.skip(6);
        assert(text::is_number(digits));
        assert forall|i: int| 0 <= i < 6 implies word[i] == count[i] by {
            assert(word.subrange(0, 6)[i] == word[i]);
        }
        assert(word =~= count + digits);
    } else if sets_limit(word, fail) {
        let digits = word.skip(5);
        assert(text::is_number(digits));
        assert forall|i: int| 0 <= i < 5 implies word[i] == fail[i] by {
            assert(word.subrange(0, 5)[i] == word[i]);
        }
        assert(word =~= fail + digits);
    }
}

/// A regex on one line and options are what `filter-start` takes: it is read as that regex, and the
/// options as what they mean. Arguments that are no regex and options are refused.
pub proof fn filter_start_reads_back(
    pattern: Seq<char>,
    options: Seq<char>,
    s: Seq<char>,
    close: int,
)
    requires
        is_one_line(pattern),
    ensures
        ({
            let args = quoted(pattern, options);
            let end = 3 + pattern.len() as int;
            &&& options_from(args, end + 2, no_options()) == options_from(options, 0, no_options())
            &&& options_from(options, 0, no_options()) is Some ==> is_filter_start(args, end)
            &&& args.subrange(3, end) == pattern
        }),
        is_filter_start(s, close) ==> {
            let rest = s.skip(close + 2);
            &&& s == quoted(s.subrange(3, close), rest)
            &&& is_one_line(s.subrange(3, close))
            &&& options_from(rest, 0, no_options()) is Some
        },
{
    marks_spelled_out();
    let open = seq!['r', '#', '"'];
    let mark = seq!['"', '#'];
    let args = quoted(pattern, options);
    let end = 3 + pattern.len() as int;
    let start = open + pattern + mark;
    assert(args =~= start + options);
    options_later(start, options, 0, no_options());
    assert(args.subrange(0, 3) =~= open);
    assert(args.subrange(end, end + 2) =~= mark);
    assert(args.subrange(3, end) =~= pattern);
    assert forall|i: int| 3 <= i < end implies #[trigger] args[i] != '\n' by {
        assert(args[i] == pattern[i - 3]);
    }
    if is_filter_start(s, close) {
        let rest = s.skip(close + 2);
        text::a_part_stands_where_its_characters_do(s, open, 0);
        text::a_part_stands_where_its_characters_do(s, mark, close);
        assert(s[0int + 0] == open[0] && s[0int + 1] == open[1] && s[0int + 2] == open[2]);
        assert(s[close + 0] == mark[0] && s[close + 1] == mark[1]);
        assert(s =~= quoted(s.subrange(3, close), rest));
        assert(s =~= s.take(close + 2) + rest);
        options_later(s.take(close + 2), rest, 0, no_options());
    }
}

} // verus!
