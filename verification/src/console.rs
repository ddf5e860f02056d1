//! What is done with the input of the user on the terminal.

use vstd::prelude::*;
use vstd::string::*;

use crate::minecraft::{AttendantCommand, AttendantRequest};
use crate::text;
use crate::util::strip_leading_ascii_hspace;

verus! {

/// What came from the terminal.
pub enum TerminalEvent {
    /// The user entered a line.
    Input(String),
    /// The user pressed the interrupt key.
    Interrupt,
    /// The server has closed.
    ServerClosed,
    /// Anything else.
    Other,
}

/// What to do about it.
pub enum TerminalAction {
    /// Remember the line in the history, and send it as a console command.
    Send(String),
    /// Raise an interrupt.
    RaiseInterrupt,
    /// Stop reading. If the prompt is still there, remove it.
    Stop { remove_prompt: bool },
    /// Go on reading.
    Continue,
}

/// `s` holds nothing but whitespace.
pub open spec fn is_blank(s: Seq<char>) -> bool {
    forall|i: int| 0 <= i < s.len() ==> text::is_white_space(#[trigger] s[i])
}

/// Whether the line holds nothing but whitespace.
pub fn blank(line: &str) -> (blank: bool)
    ensures
        blank == is_blank(line@),
{
    let chars = text::chars_of(line);
    for i in 0..chars.len()
        invariant
            chars@ == line@,
            forall|j: int| 0 <= j < i ==> text::is_white_space(#[trigger] chars@[j]),
    {
        if !text::is_whitespace(chars[i]) {
            return false;
        }
    }
    true
}

/// Decides what to do about an event of the terminal. A blank line stops the input.
pub fn terminal_action(event: TerminalEvent) -> (action: TerminalAction)
    ensures
        action == match event {
            TerminalEvent::Input(line) => if is_blank(line@) {
                TerminalAction::Stop { remove_prompt: false }
            } else {
                TerminalAction::Send(line)
            },
            TerminalEvent::Interrupt => TerminalAction::RaiseInterrupt,
            TerminalEvent::ServerClosed => TerminalAction::Stop { remove_prompt: true },
            TerminalEvent::Other => TerminalAction::Continue,
        },
{
    match event {
        TerminalEvent::Input(line) => {
            if blank(line.as_str()) {
                TerminalAction::Stop { remove_prompt: false }
            } else {
                TerminalAction::Send(line)
            }
        },
        TerminalEvent::Interrupt => TerminalAction::RaiseInterrupt,
        TerminalEvent::ServerClosed => TerminalAction::Stop { remove_prompt: true },
        TerminalEvent::Other => TerminalAction::Continue,
    }
}

/// Creates the request for a line that the user entered: the line is a console command, spaces and
/// tabs before it aside.
pub fn user_request<S>(line: &str, client_id: u32, done: S) -> (request: AttendantRequest<S>)
    ensures
        request.done == done,
        request.client_id == client_id,
        request.command matches AttendantCommand::SendCommand(slash) && slash@
            == text::without_leading_hspace(line@),
{
    AttendantRequest {
        done: done,
        command: AttendantCommand::SendCommand(strip_leading_ascii_hspace(line).to_owned()),
        client_id: client_id,
    }
}

/// A line is blank if each of its characters is whitespace, wherever it stands.
pub proof fn a_line_is_blank_in_all_its_parts(a: Seq<char>, c: char, b: Seq<char>)
    ensures
        is_blank(a + b) <==> is_blank(a) && is_blank(b),
        is_blank(a + seq![c] + b) ==> text::is_white_space(c),
        is_blank(seq![c]) <==> text::is_white_space(c),
        is_blank(Seq::empty()),
{
    let all = a + b;
    assert forall|i: int| 0 <= i < a.len() implies all[i] == a[i] by {}
    assert forall|i: int| 0 <= i < b.len() implies all[a.len() + i] == b[i] by {}
    assert(seq![c][0] == c);
    assert((a + seq![c] + b)[a.len() as int] == c);
}

/// What is done about each event of the terminal: a line with anything but whitespace is sent as it
/// was entered, and a blank one ends the input, as the end of the server does.
pub proof fn a_line_is_sent_as_it_was_entered(event: TerminalEvent, action: TerminalAction)
    requires
        call_ensures(terminal_action, (event,), action),
    ensures
        event matches TerminalEvent::Input(line) ==> (exists|i: int|
            0 <= i < line@.len() && !text::is_white_space(#[trigger] line@[i])) ==> action
            == TerminalAction::Send(line),
        event matches TerminalEvent::Input(line) ==> (forall|i: int|
            0 <= i < line@.len() ==> text::is_white_space(#[trigger] line@[i])) ==> action == (
        TerminalAction::Stop { remove_prompt: false }),
        event is Interrupt ==> action is RaiseInterrupt,
        event is ServerClosed ==> action == (TerminalAction::Stop { remove_prompt: true }),
        event is Other ==> action is Continue,
{
}

/// A line that the user entered is a console command as a whole, but for the spaces and tabs that it
/// starts with.
pub proof fn the_user_sends_the_whole_line<S>(
    line: &str,
    client_id: u32,
    done: S,
    request: AttendantRequest<S>,
)
    requires
        call_ensures(user_request::<S>, (line, client_id, done), request),
    ensures
        request.done == done,
        request.client_id == client_id,
        ({
            &&& request.command matches AttendantCommand::SendCommand(slash)
            &&& slash@.len() <= line@.len()
            &&& slash@ == line@.skip(line@.len() - slash@.len())
            &&& forall|i: int|
                0 <= i < line@.len() - slash@.len() ==> #[trigger] line@[i] == ' ' || line@[i]
                    == '\t'
            &&& slash@.len() > 0 ==> slash@[0] != ' ' && slash@[0] != '\t'
        }),
{
    text::only_leading_hspace_goes(line@);
}

} // verus!
