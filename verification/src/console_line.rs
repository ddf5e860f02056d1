//! What a line of the server console holds: prompt escapes, a timestamp, and a message that is
//! chat, a change of the server's status, or anything else.

use vstd::prelude::*;
use vstd::string::*;

use crate::text;

verus! {

/// Escape, as the terminal sequences of the console start.
pub const ESC: char = '\x1B';

/// The length of the prompt or of the prompt-related escape that `s` starts with at `at`, or 0 if
/// none stands there: `>` with one or more dots, a carriage return, or one of the sequences that
/// erase a line, change the cursor mode, ask for bracketed paste or change the keypad mode.
pub open spec fn prompt_escape_len(s: Seq<char>, at: int) -> int {
    if at < 0 || at >= s.len() {
        0
    } else if s[at] == '>' {
        let dots = dots_end(s, at + 1) - (at + 1);
        if dots > 0 {
            1 + dots
        } else {
            0
        }
    } else if s[at] == '\r' {
        1
    } else if text::occurs_at(s, "\x1B[K"@, at) {
        3
    } else if text::occurs_at(s, "\x1B[?1h"@, at) {
        5
    } else if text::occurs_at(s, "\x1B[?2004h"@, at) {
        8
    } else if text::occurs_at(s, "\x1B="@, at) {
        2
    } else {
        0
    }
}

/// The end of the run of dots that starts at `at`.
pub open spec fn dots_end(s: Seq<char>, at: int) -> int
    decreases s.len() - at,
{
    if 0 <= at < s.len() && s[at] == '.' {
        dots_end(s, at + 1)
    } else {
        at
    }
}

/// Where the prompts and escapes end that `s` holds from `at` on, one directly after the other.
pub open spec fn prompt_escapes_end(s: Seq<char>, at: int) -> int
    decreases s.len() - at,
{
    if prompt_escape_len(s, at) > 0 && prompt_escape_len(s, at) <= s.len() - at {
        prompt_escapes_end(s, at + prompt_escape_len(s, at))
    } else {
        at
    }
}

/// `s` without the prompts and prompt-related escapes that it starts with.
pub open spec fn without_prompt_escapes(s: Seq<char>) -> Seq<char> {
    s.skip(prompt_escapes_end(s, 0))
}

/// `]: ` stands at `at`.
pub open spec fn timestamp_close_at(s: Seq<char>, at: int) -> bool {
    0 <= at && at + 3 <= s.len() && s[at] == ']' && s[at + 1] == ':' && s[at + 2] == ' '
}

/// A timestamp opens at `open` and closes at `close`: a `[` there, the first `]: ` after it at
/// `close`, and no newline in between.
pub open spec fn timestamp_spans(s: Seq<char>, open: int, close: int) -> bool {
    &&& 0 <= open < close
    &&& s[open] == '['
    &&& timestamp_close_at(s, close)
    &&& text::no_newline(s, open, close)
    &&& forall|i: int| open < i < close ==> !#[trigger] timestamp_close_at(s, i)
}

/// A timestamp may open at `open`: at the start of `s`, or directly after the `m` that ends the
/// colour escapes with which `s` starts.
pub open spec fn after_colour(s: Seq<char>, open: int) -> bool {
    ||| open == 0
    ||| 3 <= open <= s.len() && s[0] == ESC && s[1] == '[' && s[open - 1] == 'm'
        && text::no_newline(s, 0, open)
}

/// The timestamp of `s` opens at `open` and closes at `close`: the first place at which one may
/// open and does.
pub open spec fn has_timestamp(s: Seq<char>, open: int, close: int) -> bool {
    &&& after_colour(s, open)
    &&& timestamp_spans(s, open, close)
    &&& forall|o: int, c: int|
        o < open && #[trigger] timestamp_spans(s, o, c) ==> !after_colour(s, o)
}

/// `s` with its timestamp taken out, colour escapes before it left in place.
pub open spec fn message_between(s: Seq<char>, open: int, close: int) -> Seq<char> {
    s.take(open) + s.skip(close + 3)
}

/// A character of a player name.
pub open spec fn is_name_char(c: char) -> bool {
    'a' <= c <= 'z' || 'A' <= c <= 'Z' || '0' <= c <= '9' || c == '_'
}

/// `s` starts with a player name of `n` characters in angle brackets.
pub open spec fn starts_with_name(s: Seq<char>, n: int) -> bool {
    &&& 3 <= n <= 32
    &&& n + 2 <= s.len()
    &&& s[0] == '<'
    &&& s[n + 1] == '>'
    &&& forall|i: int| 1 <= i <= n ==> is_name_char(#[trigger] s[i])
}

/// A player said `s`: it starts with a name of 3 to 32 characters in angle brackets.
pub open spec fn is_chat_line(s: Seq<char>) -> bool {
    exists|n: int| starts_with_name(s, n)
}

/// `s` starts with `Done (`, and a `)!` that closes it stands at `close`, with something but no
/// further `(` in between.
pub open spec fn done_closes_at(s: Seq<char>, close: int) -> bool {
    &&& text::occurs_at(s, "Done ("@, 0)
    &&& 7 <= close
    &&& close + 2 <= s.len()
    &&& s[close] == ')'
    &&& s[close + 1] == '!'
    &&& forall|i: int| 6 <= i < close ==> #[trigger] s[i] != '('
}

/// The server says that it is ready.
pub open spec fn is_ready_line(s: Seq<char>) -> bool {
    exists|close: int| done_closes_at(s, close)
}

/// The server says that it is closing.
pub open spec fn is_closed_line(s: Seq<char>) -> bool {
    s == "Closing Server"@
}

/// Taking out a timestamp changes the line.
pub proof fn taking_out_a_timestamp_shows(s: Seq<char>, open: int, close: int)
    requires
        has_timestamp(s, open, close),
    ensures
        message_between(s, open, close).len() < s.len(),
        message_between(s, open, close) != s,
{
}

/// Where the prompts and escapes end, there is no further one.
pub proof fn no_prompt_is_left(s: Seq<char>, at: int)
    requires
        0 <= at <= s.len(),
    ensures
        at <= prompt_escapes_end(s, at) <= s.len(),
        prompt_escape_len(s, prompt_escapes_end(s, at)) == 0,
    decreases s.len() - at,
{
    let len = prompt_escape_len(s, at);
    if 0 < len <= s.len() - at {
        no_prompt_is_left(s, at + len);
    } else {
        prompt_escape_len_bounds(s, at);
    }
}

/// A line holds at most one timestamp.
pub proof fn timestamp_is_unique(
    s: Seq<char>,
    open: int,
    close: int,
    other_open: int,
    other_close: int,
)
    requires
        has_timestamp(s, open, close),
        has_timestamp(s, other_open, other_close),
    ensures
        open == other_open,
        close == other_close,
{
    assert(timestamp_spans(s, open, close) && timestamp_spans(s, other_open, other_close));
    if open == other_open {
        if close < other_close {
            assert(timestamp_close_at(s, close));
        } else if other_close < close {
            assert(timestamp_close_at(s, other_close));
        }
    }
}

proof fn dots_end_bounds(s: Seq<char>, at: int)
    requires
        0 <= at <= s.len(),
    ensures
        at <= dots_end(s, at) <= s.len(),
        forall|i: int| at <= i < dots_end(s, at) ==> s[i] == '.',
        dots_end(s, at) < s.len() ==> s[dots_end(s, at)] != '.',
    decreases s.len() - at,
{
    if at < s.len() && s[at] == '.' {
        dots_end_bounds(s, at + 1);
    }
}

proof fn prompt_escape_len_bounds(s: Seq<char>, at: int)
    requires
        0 <= at <= s.len(),
    ensures
        0 <= prompt_escape_len(s, at) <= s.len() - at,
{
    reveal_strlit("\x1B[K");
    reveal_strlit("\x1B[?1h");
    reveal_strlit("\x1B[?2004h");
    reveal_strlit("\x1B=");
    if at < s.len() {
        dots_end_bounds(s, at + 1);
    }
}

/// The length of the prompt or escape at `at`, or 0.
fn prompt_escape(chars: &Vec<char>, at: usize) -> (len: usize)
    requires
        at <= chars.len(),
    ensures
        len == prompt_escape_len(chars@, at as int),
        at + len <= chars.len(),
{
    proof {
        prompt_escape_len_bounds(chars@, at as int);
    }
    if at == chars.len() {
        0
    } else if chars[at] == '>' {
        let mut i: usize = at + 1;
        while i < chars.len() && chars[i] == '.'
            invariant
                at + 1 <= i <= chars.len(),
                dots_end(chars@, i as int) == dots_end(chars@, at + 1),
            decreases chars.len() - i,
        {
            i = i + 1;
        }
        if i > at + 1 {
            i - at
        } else {
            0
        }
    } else if chars[at] == '\r' {
        1
    } else if text::literal_at(chars, at, "\x1B[K") {
        3
    } else if text::literal_at(chars, at, "\x1B[?1h") {
        5
    } else if text::literal_at(chars, at, "\x1B[?2004h") {
        8
    } else if text::literal_at(chars, at, "\x1B=") {
        2
    } else {
        0
    }
}

/// Removes the interactive prompt, and the escapes that come with it, from the start of a line.
pub fn strip_prompt_escapes(line: &str) -> (stripped: &str)
    ensures
        stripped@ == without_prompt_escapes(line@),
{
    let chars = text::chars_of(line);
    let mut end: usize = 0;
    let mut len: usize = prompt_escape(&chars, end);
    while len > 0
        invariant
            end + len <= chars.len(),
            chars@ == line@,
            len == prompt_escape_len(chars@, end as int),
            prompt_escapes_end(chars@, end as int) == prompt_escapes_end(chars@, 0),
        decreases chars.len() - end,
    {
        end = end + len;
        len = prompt_escape(&chars, end);
    }
    line.substring_char(end, chars.len())
}

/// Finds the first `]: ` after `open` that no newline comes before.
fn timestamp_close(chars: &Vec<char>, open: usize) -> (close: Option<usize>)
    requires
        open < chars.len(),
        chars[open as int] == '[',
    ensures
        match close {
            Some(c) => timestamp_spans(chars@, open as int, c as int),
            None => forall|c: int| !timestamp_spans(chars@, open as int, c),
        },
{
    let mut i: usize = open + 1;
    while i < chars.len()
        invariant
            open < i <= chars.len(),
            chars[open as int] == '[',
            text::no_newline(chars@, open as int, i as int),
            forall|j: int| open < j < i ==> !#[trigger] timestamp_close_at(chars@, j),
        decreases chars.len() - i,
    {
        if chars.len() - i >= 3 && chars[i] == ']' && chars[i + 1] == ':' && chars[i + 2] == ' ' {
            return Some(i);
        }
        if chars[i] == '\n' {
            assert forall|c: int| !timestamp_spans(chars@, open as int, c) by {
                if timestamp_spans(chars@, open as int, c) {
                    assert(timestamp_close_at(chars@, c));
                    assert(chars@[i as int] != '\n');
                }
            }
            return None;
        }
        i = i + 1;
    }
    None
}

/// Finds the timestamp of a line: where it opens, and where the `]: ` stands that closes it.
pub fn find_timestamp(chars: &Vec<char>) -> (span: Option<(usize, usize)>)
    ensures
        match span {
            Some((open, close)) => has_timestamp(chars@, open as int, close as int),
            None => forall|open: int, close: int| !has_timestamp(chars@, open, close),
        },
{
    let mut open: usize = 0;
    while open < chars.len()
        invariant
            open <= chars.len(),
            forall|o: int, c: int| o < open && #[trigger] timestamp_spans(chars@, o, c) ==>
                !after_colour(chars@, o),
            text::no_newline(chars@, 0, open as int),
        decreases chars.len() - open,
    {
        let allowed = open == 0 || open >= 3 && chars[0] == ESC && chars[1] == '['
            && chars[open - 1] == 'm';
        if allowed && chars[open] == '[' {
            match timestamp_close(chars, open) {
                Some(close) => {
                    return Some((open, close));
                },
                None => {},
            }
        }
        if chars[open] == '\n' {
            return None;
        }
        open = open + 1;
    }
    None
}

/// Chops off the timestamp of a line, but keeps the colour escape before it. Returns `None` for
/// a line without a timestamp.
pub fn remove_timestamp(line: &str) -> (message: Option<String>)
    ensures
        match message {
            Some(m) => exists|open: int, close: int|
                #[trigger] has_timestamp(line@, open, close)
                    && m@ == message_between(line@, open, close),
            None => forall|open: int, close: int| !has_timestamp(line@, open, close),
        },
{
    let chars = text::chars_of(line);
    match find_timestamp(&chars) {
        Some((open, close)) => {
            let colour = line.substring_char(0, open);
            let rest = line.substring_char(close + 3, chars.len());
            let message = colour.to_owned().concat(rest);
            assert(message@ =~= message_between(line@, open as int, close as int));
            Some(message)
        },
        None => None,
    }
}

/// Checks whether a message is chat.
pub fn is_chat(message: &str) -> (chat: bool)
    ensures
        chat == is_chat_line(message@),
{
    let chars = text::chars_of(message);
    if chars.len() == 0 || chars[0] != '<' {
        return false;
    }
    let mut i: usize = 1;
    while i < chars.len() && i <= 33 && (('a' <= chars[i] && chars[i] <= 'z') || ('A' <= chars[i]
        && chars[i] <= 'Z') || ('0' <= chars[i] && chars[i] <= '9') || chars[i] == '_')
        invariant
            1 <= i <= chars.len(),
            i <= 34,
            forall|j: int| 1 <= j < i ==> is_name_char(#[trigger] chars[j]),
        decreases chars.len() - i,
    {
        i = i + 1;
    }
    let chat = 4 <= i && i <= 33 && i < chars.len() && chars[i] == '>';
    proof {
        if chat {
            assert(starts_with_name(chars@, i - 1));
        } else {
            assert forall|n: int| !starts_with_name(chars@, n) by {
                if starts_with_name(chars@, n) {
                    if i <= n {
                        assert(is_name_char(chars@[i as int]));
                    }
                    if n + 1 < i {
                        assert(is_name_char(chars@[n + 1]));
                    }
                }
            }
        }
    }
    chat
}

/// Checks whether a message says that the server is ready.
pub fn is_server_ready(message: &str) -> (ready: bool)
    ensures
        ready == is_ready_line(message@),
{
    proof {
        reveal_strlit("Done (");
    }
    let chars = text::chars_of(message);
    if !text::literal_at(&chars, 0, "Done (") {
        return false;
    }
    let mut i: usize = 6;
    while i < chars.len() && chars[i] != '('
        invariant
            6 <= i <= chars.len(),
            chars@ == message@,
            forall|j: int| 6 <= j < i ==> #[trigger] chars[j] != '(',
            forall|c: int| c < i ==> !#[trigger] done_closes_at(chars@, c),
            text::occurs_at(chars@, "Done ("@, 0),
        decreases chars.len() - i,
    {
        if i >= 7 && chars[i] == ')' && chars.len() - i >= 2 && chars[i + 1] == '!' {
            assert(done_closes_at(chars@, i as int));
            return true;
        }
        i = i + 1;
    }
    assert forall|c: int| !done_closes_at(chars@, c) by {
        if done_closes_at(chars@, c) && i < chars.len() && i < c {
            assert(chars@[i as int] != '(');
        }
    }
    false
}

/// Checks whether a message says that the server is closing.
pub fn is_server_closed(message: &str) -> (closed: bool)
    ensures
        closed == is_closed_line(message@),
{
    text::same_text(message, "Closing Server")
}

// === What holds of all lines ===

/// `p` is one prompt, or one of the escapes that come with it.
pub open spec fn is_prompt(p: Seq<char>) -> bool {
    ||| p == seq!['\r']
    ||| p == seq!['\x1B', '[', 'K']
    ||| p == seq!['\x1B', '[', '?', '1', 'h']
    ||| p == seq!['\x1B', '[', '?', '2', '0', '0', '4', 'h']
    ||| p == seq!['\x1B', '=']
    ||| {
        &&& p.len() >= 2
        &&& p[0] == '>'
        &&& forall|i: int| 1 <= i < p.len() ==> #[trigger] p[i] == '.'
    }
}

/// Where a part stands does not depend on what comes before it.
proof fn occurs_later(p: Seq<char>, s: Seq<char>, part: Seq<char>, at: int)
    requires
        at >= 0,
    ensures
        text::occurs_at(p + s, part, p.len() + at) == text::occurs_at(s, part, at),
{
    if at + part.len() <= s.len() {
        assert((p + s).subrange(p.len() + at, p.len() + at + part.len()) =~= s.subrange(
            at,
            at + part.len(),
        ));
    }
}

proof fn dots_end_later(p: Seq<char>, s: Seq<char>, at: int)
    requires
        0 <= at <= s.len(),
    ensures
        dots_end(p + s, p.len() + at) == p.len() + dots_end(s, at),
    decreases s.len() - at,
{
    if at < s.len() {
        assert((p + s)[p.len() + at] == s[at]);
        if s[at] == '.' {
            dots_end_later(p, s, at + 1);
        }
    }
}

proof fn prompt_escape_later(p: Seq<char>, s: Seq<char>, at: int)
    requires
        0 <= at <= s.len(),
    ensures
        prompt_escape_len(p + s, p.len() + at) == prompt_escape_len(s, at),
{
    if at < s.len() {
        assert((p + s)[p.len() + at] == s[at]);
        dots_end_later(p, s, at + 1);
        occurs_later(p, s, "\x1B[K"@, at);
        occurs_later(p, s, "\x1B[?1h"@, at);
        occurs_later(p, s, "\x1B[?2004h"@, at);
        occurs_later(p, s, "\x1B="@, at);
    }
}

proof fn prompt_escapes_later(p: Seq<char>, s: Seq<char>, at: int)
    requires
        0 <= at <= s.len(),
    ensures
        prompt_escapes_end(p + s, p.len() + at) == p.len() + prompt_escapes_end(s, at),
    decreases s.len() - at,
{
    prompt_escape_later(p, s, at);
    let len = prompt_escape_len(s, at);
    if 0 < len <= s.len() - at {
        prompt_escapes_later(p, s, at + len);
    }
}

/// The run of dots after a prompt ends where another character stands.
proof fn dots_end_here(s: Seq<char>, at: int, end: int)
    requires
        0 <= at <= end <= s.len(),
        forall|i: int| at <= i < end ==> #[trigger] s[i] == '.',
        end < s.len() ==> s[end] != '.',
    ensures
        dots_end(s, at) == end,
    decreases end - at,
{
    if at < end {
        assert(s[at] == '.');
        dots_end_here(s, at + 1, end);
    }
}

/// The escapes that come with a prompt, character by character.
proof fn escapes_spelled_out()
    ensures
        "\x1B[K"@ == seq!['\x1B', '[', 'K'],
        "\x1B[?1h"@ == seq!['\x1B', '[', '?', '1', 'h'],
        "\x1B[?2004h"@ == seq!['\x1B', '[', '?', '2', '0', '0', '4', 'h'],
        "\x1B="@ == seq!['\x1B', '='],
{
    reveal_strlit("\x1B[K");
    reveal_strlit("\x1B[?1h");
    reveal_strlit("\x1B[?2004h");
    reveal_strlit("\x1B=");
    assert("\x1B[K"@ =~= seq!['\x1B', '[', 'K']);
    assert("\x1B[?1h"@ =~= seq!['\x1B', '[', '?', '1', 'h']);
    assert("\x1B[?2004h"@ =~= seq!['\x1B', '[', '?', '2', '0', '0', '4', 'h']);
    assert("\x1B="@ =~= seq!['\x1B', '=']);
}

/// A prompt, or an escape that comes with it, is taken off the start of any line, and what is left
/// is the same as without it. The dots of a prompt all belong to it.
pub proof fn a_prompt_is_stripped(p: Seq<char>, s: Seq<char>)
    requires
        is_prompt(p),
        p[0] == '>' && s.len() > 0 ==> s[0] != '.',
    ensures
        without_prompt_escapes(p + s) == without_prompt_escapes(s),
{
    let all = p + s;
    escapes_spelled_out();
    assert(all[0] == p[0]);
    assert forall|part: Seq<char>| #[trigger] text::occurs_at(all, part, 0) && part.len()
        <= p.len() implies part == p.take(part.len() as int) by {
        assert(all.subrange(0, part.len() as int) =~= p.take(part.len() as int));
    }
    assert(all.subrange(0, p.len() as int) =~= p);
    assert(text::occurs_at(all, p, 0));
    if p[0] == '>' {
        assert forall|i: int| 1 <= i < p.len() implies #[trigger] all[i] == '.' by {
            assert(p[i] == '.');
        }
        dots_end_here(all, 1, p.len() as int);
    } else if p[0] != '\r' {
        if p == seq!['\x1B', '[', '?', '1', 'h'] {
            assert(p.take(3)[2] == '?');
        }
        if p == seq!['\x1B', '[', '?', '2', '0', '0', '4', 'h'] {
            assert(p.take(3)[2] == '?');
            assert(p.take(5)[3] == '2');
        }
        if p == seq!['\x1B', '='] {
            assert(all[1] == '=');
            assert forall|part: Seq<char>| #[trigger] text::occurs_at(all, part, 0)
                && part.len() >= 2 implies part[1] == '=' by {
                assert(all.subrange(0, part.len() as int)[1] == all[1]);
            }
        }
    }
    assert(prompt_escape_len(all, 0) == p.len());
    prompt_escapes_later(p, s, 0);
    no_prompt_is_left(s, 0);
    let end = prompt_escapes_end(s, 0);
    assert(all.skip(p.len() + end) =~= s.skip(end));
}

/// A line that starts with no prompt, and no escape that comes with it, stays as it is.
pub proof fn nothing_but_prompts_is_stripped(s: Seq<char>)
    requires
        forall|p: Seq<char>| #[trigger] is_prompt(p) ==> !text::occurs_at(s, p, 0),
    ensures
        without_prompt_escapes(s) == s,
{
    escapes_spelled_out();
    assert(is_prompt("\x1B[K"@) && is_prompt("\x1B[?1h"@) && is_prompt("\x1B[?2004h"@)
        && is_prompt("\x1B="@));
    if s.len() > 0 {
        if s[0] == '\r' {
            assert(is_prompt(seq!['\r']));
            assert(s.subrange(0, 1) =~= seq!['\r']);
            assert(text::occurs_at(s, seq!['\r'], 0));
        }
        if s[0] == '>' {
            dots_end_bounds(s, 1);
            let p = s.take(dots_end(s, 1));
            if p.len() > 1 {
                assert(is_prompt(p));
                assert(s.subrange(0, p.len() as int) =~= p);
                assert(text::occurs_at(s, p, 0));
            }
        }
    }
    assert(prompt_escapes_end(s, 0) == 0);
    assert(s.skip(0) =~= s);
}

/// A line that starts with a timestamp: what stands between `[` and the first `]: `, on one line,
/// is taken out with its brackets, and the rest is the message.
pub proof fn a_timestamp_is_taken_out(inner: Seq<char>, rest: Seq<char>, open: int, close: int)
    requires
        forall|i: int| 0 <= i < inner.len() ==> #[trigger] inner[i] != '\n',
        forall|i: int|
            0 <= i < inner.len() ==> !text::occurs_at(
                inner + seq![']', ':', ' '],
                seq![']', ':', ' '],
                i,
            ),
    ensures
        ({
            let line = seq!['['] + inner + seq![']', ':', ' '] + rest;
            &&& has_timestamp(line, 0, inner.len() as int + 1)
            &&& has_timestamp(line, open, close) ==> message_between(line, open, close) == rest
        }),
{
    let line = seq!['['] + inner + seq![']', ':', ' '] + rest;
    let end = inner.len() as int + 1;
    let close_mark = seq![']', ':', ' '];
    let closed = inner + close_mark;
    assert forall|i: int| 0 <= i < closed.len() implies line[i + 1] == closed[i] by {}
    assert(timestamp_close_at(line, end)) by {
        assert(line[end] == closed[inner.len() as int]);
        assert(line[end + 1] == closed[inner.len() as int + 1]);
        assert(line[end + 2] == closed[inner.len() as int + 2]);
    }
    assert forall|i: int| 0 < i < end implies !#[trigger] timestamp_close_at(line, i) by {
        if timestamp_close_at(line, i) {
            assert(closed[i - 1] == line[i] && closed[i] == line[i + 1] && closed[i + 1] == line[i
                + 2]);
            assert(closed.subrange(i - 1, i + 2) =~= close_mark);
            assert(text::occurs_at(closed, close_mark, i - 1));
        }
    }
    assert(text::no_newline(line, 0, end)) by {
        assert forall|i: int| 0 <= i < end implies #[trigger] line[i] != '\n' by {
            if i > 0 {
                assert(line[i] == inner[i - 1]);
            }
        }
    }
    assert(timestamp_spans(line, 0, end));
    assert(has_timestamp(line, 0, end));
    if has_timestamp(line, open, close) {
        timestamp_is_unique(line, 0, end, open, close);
        assert(message_between(line, 0, end) =~= rest);
    }
}

/// A line whose timestamp is coloured: the timestamp is taken out, and the colour stays in front
/// of the message.
pub proof fn the_colour_of_a_timestamp_stays(
    colour: Seq<char>,
    inner: Seq<char>,
    rest: Seq<char>,
    open: int,
    close: int,
)
    requires
        colour.len() >= 3,
        colour[0] == '\x1B',
        colour[1] == '[',
        colour.last() == 'm',
        forall|i: int| 0 <= i < colour.len() ==> #[trigger] colour[i] != '\n',
        forall|i: int| 3 <= i < colour.len() ==> !(colour[i - 1] == 'm' && #[trigger] colour[i] == '['),
        forall|i: int| 0 <= i < inner.len() ==> #[trigger] inner[i] != '\n',
        forall|i: int|
            0 <= i < inner.len() ==> !text::occurs_at(
                inner + seq![']', ':', ' '],
                seq![']', ':', ' '],
                i,
            ),
    ensures
        ({
            let line = colour + (seq!['['] + inner + seq![']', ':', ' '] + rest);
            &&& has_timestamp(
                line,
                colour.len() as int,
                colour.len() as int + inner.len() + 1,
            )
            &&& has_timestamp(line, open, close) ==> message_between(line, open, close) == colour
                + rest
        }),
{
    let plain = seq!['['] + inner + seq![']', ':', ' '] + rest;
    let line = colour + plain;
    let n = colour.len() as int;
    let end = inner.len() as int + 1;
    a_timestamp_is_taken_out(inner, rest, 0, end);
    assert forall|i: int| 0 <= i < plain.len() implies line[n + i] == plain[i] by {}
    assert forall|i: int| n < i < n + end implies !#[trigger] timestamp_close_at(line, i) by {
        if timestamp_close_at(line, i) {
            assert(line[n + (i - n)] == plain[i - n] && line[n + (i - n + 1)] == plain[i - n + 1]
                && line[n + (i - n + 2)] == plain[i - n + 2]);
            assert(timestamp_close_at(plain, i - n));
        }
    }
    assert(timestamp_close_at(line, n + end)) by {
        assert(timestamp_close_at(plain, end));
        assert(line[n + end] == plain[end] && line[n + (end + 1)] == plain[end + 1] && line[n + (end
            + 2)] == plain[end + 2]);
    }
    assert(text::no_newline(line, n, n + end)) by {
        assert forall|i: int| n <= i < n + end implies #[trigger] line[i] != '\n' by {
            assert(line[n + (i - n)] == plain[i - n]);
        }
    }
    assert(line[n] == plain[0]);
    assert(timestamp_spans(line, n, n + end));
    assert(text::no_newline(line, 0, n)) by {
        assert forall|i: int| 0 <= i < n implies #[trigger] line[i] != '\n' by {
            assert(line[i] == colour[i]);
        }
    }
    assert(line[n - 1] == colour.last());
    assert forall|o: int, c: int| o < n && #[trigger] timestamp_spans(
        line,
        o,
        c,
    ) implies !after_colour(line, o) by {
        if o == 0 {
            assert(line[0] == colour[0]);
        } else if 3 <= o {
            assert(line[o] == colour[o] && line[o - 1] == colour[o - 1]);
        }
    }
    assert(has_timestamp(line, n, n + end));
    if has_timestamp(line, open, close) {
        timestamp_is_unique(line, n, n + end, open, close);
        assert(message_between(line, n, n + end) =~= colour + rest);
    }
}

/// A timestamp is what it says: a `[` at the start of the line, or after the `m` that ends the
/// colour which the line starts with, and a `]: ` after it on the same line.
pub proof fn nothing_else_is_a_timestamp(s: Seq<char>, open: int, close: int)
    requires
        has_timestamp(s, open, close),
    ensures
        0 <= open < close,
        close + 3 <= s.len(),
        s[open] == '[',
        s[close] == ']',
        s[close + 1] == ':',
        s[close + 2] == ' ',
        forall|i: int| open <= i < close ==> #[trigger] s[i] != '\n',
        open > 0 ==> s[0] == '\x1B' && s[1] == '[' && s[open - 1] == 'm',
        message_between(s, open, close).len() == s.len() - (close + 3 - open),
        forall|i: int| 0 <= i < open ==> message_between(s, open, close)[i] == s[i],
        forall|i: int|
            close + 3 <= i < s.len() ==> message_between(s, open, close)[i - (close + 3 - open)]
                == #[trigger] s[i],
{
    assert(timestamp_close_at(s, close));
}

/// What a player with this name said, as it stands on the console.
pub open spec fn said_by(name: Seq<char>, said: Seq<char>) -> Seq<char> {
    seq!['<'] + name + seq!['>'] + said
}

/// What the server says once it is ready after this time.
pub open spec fn done_after(time: Seq<char>, rest: Seq<char>) -> Seq<char> {
    seq!['D', 'o', 'n', 'e', ' ', '('] + time + seq![')', '!'] + rest
}

/// Chat is a player name of 3 to 32 letters, digits and underscores in angle brackets, followed by
/// anything.
pub proof fn chat_starts_with_a_name(s: Seq<char>)
    ensures
        is_chat_line(s) <==> exists|name: Seq<char>, said: Seq<char>|
            {
                &&& s == #[trigger] said_by(name, said)
                &&& 3 <= name.len() <= 32
                &&& forall|i: int|
                    0 <= i < name.len() ==> {
                        ||| 'a' <= #[trigger] name[i] <= 'z'
                        ||| 'A' <= name[i] <= 'Z'
                        ||| '0' <= name[i] <= '9'
                        ||| name[i] == '_'
                    }
            },
{
    if is_chat_line(s) {
        let n = choose|n: int| starts_with_name(s, n);
        let name = s.subrange(1, n + 1);
        let said = s.skip(n + 2);
        assert forall|i: int| 0 <= i < name.len() implies {
            ||| 'a' <= #[trigger] name[i] <= 'z'
            ||| 'A' <= name[i] <= 'Z'
            ||| '0' <= name[i] <= '9'
            ||| name[i] == '_'
        } by {
            assert(is_name_char(s[i + 1]));
        }
        assert(s =~= said_by(name, said));
    }
    if exists|name: Seq<char>, said: Seq<char>|
        {
            &&& s == #[trigger] said_by(name, said)
            &&& 3 <= name.len() <= 32
            &&& forall|i: int|
                0 <= i < name.len() ==> {
                    ||| 'a' <= #[trigger] name[i] <= 'z'
                    ||| 'A' <= name[i] <= 'Z'
                    ||| '0' <= name[i] <= '9'
                    ||| name[i] == '_'
                }
        } {
        let (name, said) = choose|name: Seq<char>, said: Seq<char>|
            {
                &&& s == #[trigger] said_by(name, said)
                &&& 3 <= name.len() <= 32
                &&& forall|i: int|
                    0 <= i < name.len() ==> {
                        ||| 'a' <= #[trigger] name[i] <= 'z'
                        ||| 'A' <= name[i] <= 'Z'
                        ||| '0' <= name[i] <= '9'
                        ||| name[i] == '_'
                    }
            };
        let n = name.len() as int;
        assert forall|i: int| 1 <= i <= n implies is_name_char(#[trigger] s[i]) by {
            assert(s[i] == name[i - 1]);
        }
        assert(starts_with_name(s, n));
    }
}

/// The server is ready when it says `Done (`, how long it took, and `)!`, followed by anything.
pub proof fn ready_is_done_in_some_time(s: Seq<char>)
    ensures
        is_ready_line(s) <==> exists|time: Seq<char>, rest: Seq<char>|
            {
                &&& s == #[trigger] done_after(time, rest)
                &&& time.len() > 0
                &&& forall|i: int| 0 <= i < time.len() ==> #[trigger] time[i] != '('
            },
{
    reveal_strlit("Done (");
    let done = seq!['D', 'o', 'n', 'e', ' ', '('];
    assert("Done ("@ =~= done);
    if is_ready_line(s) {
        let close = choose|close: int| done_closes_at(s, close);
        let time = s.subrange(6, close);
        let rest = s.skip(close + 2);
        assert(s.subrange(0, 6) == done);
        assert forall|i: int| 0 <= i < 6 implies s[i] == done[i] by {
            assert(s.subrange(0, 6)[i] == s[i]);
        }
        assert forall|i: int| 0 <= i < time.len() implies #[trigger] time[i] != '(' by {
            assert(s[i + 6] != '(');
        }
        assert(s =~= done_after(time, rest));
    }
    if exists|time: Seq<char>, rest: Seq<char>|
        {
            &&& s == #[trigger] done_after(time, rest)
            &&& time.len() > 0
            &&& forall|i: int| 0 <= i < time.len() ==> #[trigger] time[i] != '('
        } {
        let (time, rest) = choose|time: Seq<char>, rest: Seq<char>|
            {
                &&& s == #[trigger] done_after(time, rest)
                &&& time.len() > 0
                &&& forall|i: int| 0 <= i < time.len() ==> #[trigger] time[i] != '('
            };
        let close = 6 + time.len() as int;
        assert(s.subrange(0, 6) =~= done);
        assert forall|i: int| 6 <= i < close implies #[trigger] s[i] != '(' by {
            assert(s[i] == time[i - 6]);
        }
        assert(done_closes_at(s, close));
    }
}

/// The server is closing when it says just that.
pub proof fn closing_is_said_in_two_words(s: Seq<char>)
    ensures
        is_closed_line(s) <==> s == seq!['C', 'l', 'o', 's', 'i', 'n', 'g'] + seq![' '] + seq![
            'S',
            'e',
            'r',
            'v',
            'e',
            'r',
        ],
{
    reveal_strlit("Closing Server");
    assert("Closing Server"@ =~= seq!['C', 'l', 'o', 's', 'i', 'n', 'g'] + seq![' '] + seq![
        'S',
        'e',
        'r',
        'v',
        'e',
        'r',
    ]);
}

} // verus!
