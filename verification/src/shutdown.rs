//! When to stop the server.

use vstd::prelude::*;

verus! {

/// What brought the wrapper to clean up.
#[derive(Clone, Copy, Debug, PartialEq, Eq)]
pub enum StopTrigger {
    /// The server said that it is closing.
    ServerClosed,
    /// The wrapper got a stop signal.
    StopSignal,
    /// The server's process ended.
    ProcessEnded,
}

/// Decides whether to interrupt the server's process before cleaning up.
pub fn interrupts_server(trigger: StopTrigger) -> (interrupt: bool)
    ensures
        interrupt == (trigger is ProcessEnded),
{
    matches!(trigger, StopTrigger::ProcessEnded)
}

/// Decides whether to kill the server: it has closed and was waited for, but its process has not
/// ended.
pub fn cleanup_action(closed: bool, waited: bool, exited: bool) -> (kill: bool)
    ensures
        kill == (closed && waited && !exited),
{
    closed && waited && !exited
}

/// Whatever the two decisions come to: a server is killed only after it has closed and was waited
/// for in vain, and then it is; and it is interrupted only if its process ended before anything else
/// had the wrapper stop, and then it is.
pub proof fn only_a_server_that_hangs_is_killed(
    closed: bool,
    waited: bool,
    exited: bool,
    kill: bool,
    trigger: StopTrigger,
    interrupt: bool,
)
    requires
        call_ensures(cleanup_action, (closed, waited, exited), kill),
        call_ensures(interrupts_server, (trigger,), interrupt),
    ensures
        kill ==> closed && waited && !exited,
        !kill ==> !closed || !waited || exited,
        trigger is ServerClosed || trigger is StopSignal ==> !interrupt,
        trigger is ProcessEnded ==> interrupt,
{
}

} // verus!
