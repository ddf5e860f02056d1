use mcclwrap::shutdown::{cleanup_action, interrupts_server, StopTrigger};

#[test]
fn a_server_that_does_not_exit_is_killed() {
    assert!(cleanup_action(true, true, false));
    assert!(!cleanup_action(true, true, true));
    assert!(!cleanup_action(true, false, false));
    assert!(!cleanup_action(false, true, false));
    assert!(!cleanup_action(false, false, true));
}

#[test]
fn only_a_stopped_process_is_interrupted() {
    assert!(interrupts_server(StopTrigger::ProcessEnded));
    assert!(!interrupts_server(StopTrigger::ServerClosed));
    assert!(!interrupts_server(StopTrigger::StopSignal));
}
