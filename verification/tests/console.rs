use mcclwrap::console::{blank, terminal_action, user_request, TerminalAction, TerminalEvent};
use mcclwrap::console_output::{
    can_run, process_line, run_output_filters, ServerStatusChecker, StatusChange,
};
use mcclwrap::filters::{FilterOutput, OutputFilter};
use mcclwrap::minecraft::AttendantCommand;
use mcclwrap::text::is_whitespace;
use regex::Regex;

fn checker() -> ServerStatusChecker<&'static str> {
    ServerStatusChecker::new("ready", "closed")
}

#[test]
fn a_status_is_signalled_once() {
    let mut checker = checker();
    assert_eq!(checker.check("Loading"), StatusChange::Nothing);
    assert_eq!(checker.check("Closing Server"), StatusChange::Closed);
    assert!(!checker.is_ready);
    assert!(checker.is_closed);
    assert_eq!(checker.check("Done (1.0s)! For help"), StatusChange::Ready);
    assert_eq!(checker.check("Done (1.0s)! For help"), StatusChange::Nothing);
    assert_eq!(checker.check("Closing Server"), StatusChange::Nothing);
    assert!(checker.is_ready);
    assert!(checker.is_closed);
    assert_eq!((checker.tx_ready, checker.tx_closed), ("ready", "closed"));
}

#[test]
fn a_server_that_is_ready_is_not_closing() {
    let mut checker = checker();
    assert_eq!(checker.check("Done (12.3s)! For help, type \"help\""), StatusChange::Ready);
    assert_eq!((checker.is_ready, checker.is_closed), (true, false));
}

#[test]
fn messages_reach_status_and_filters() {
    let mut checker = checker();
    let (filter, mut rx) = OutputFilter::new(Regex::new("help").unwrap()).build();
    let mut filters = vec![filter];
    let output = process_line(
        ">....\r[12:00:00 INFO]: Done (3.1s)! For help",
        &mut filters,
        &mut checker,
    );
    assert_eq!(output.raw, "[12:00:00 INFO]: Done (3.1s)! For help");
    assert_eq!(output.message, Some("Done (3.1s)! For help\x1B[m".to_string()));
    assert_eq!(output.status, StatusChange::Ready);
    assert_eq!(
        rx.try_recv().unwrap().take_line(),
        Some("Done (3.1s)! For help\x1B[m".to_string())
    );
}

#[test]
fn a_line_without_timestamp_is_no_message() {
    let mut checker = checker();
    let (filter, mut rx) = OutputFilter::new(Regex::new("").unwrap()).build();
    let mut filters = vec![filter];
    let output = process_line("Done (3.1s)!", &mut filters, &mut checker);
    assert_eq!(output.raw, "Done (3.1s)!");
    assert_eq!(output.message, None);
    assert_eq!(output.status, StatusChange::Nothing);
    assert!(!checker.is_ready);
    assert!(rx.try_recv().is_err());
}

#[test]
fn chat_reaches_only_filters_that_want_it() {
    let mut checker = checker();
    let (quiet, mut quiet_rx) = OutputFilter::new(Regex::new("hi").unwrap()).build();
    let (chatty, mut chatty_rx) =
        OutputFilter::new(Regex::new("hi").unwrap()).ignore_chat(false).build();
    let mut filters = vec![quiet, chatty];
    let output = process_line("[12:00:00 INFO]: <Steve> hi", &mut filters, &mut checker);
    assert_eq!(output.message, Some("<Steve> hi\x1B[m".to_string()));
    assert!(quiet_rx.try_recv().is_err());
    assert_eq!(chatty_rx.try_recv().unwrap().take_line(), Some("<Steve> hi\x1B[m".to_string()));
    assert_eq!(filters.len(), 2);
}

#[test]
fn completed_filters_are_removed() {
    let (once, mut once_rx) = OutputFilter::new(Regex::new("a").unwrap()).count(Some(1)).build();
    let (always, mut always_rx) = OutputFilter::new(Regex::new("a").unwrap()).build();
    let (impatient, mut impatient_rx) =
        OutputFilter::new(Regex::new("b").unwrap()).fail(Some(1)).build();
    let mut filters = vec![once, impatient, always];
    run_output_filters(&mut filters, "a", false);
    assert_eq!(filters.len(), 1);
    run_output_filters(&mut filters, "aa", false);
    assert_eq!(once_rx.try_recv().unwrap().take_line(), Some("a".to_string()));
    assert!(matches!(once_rx.try_recv(), Ok(FilterOutput::Expired)));
    assert!(matches!(impatient_rx.try_recv(), Ok(FilterOutput::Expired)));
    assert_eq!(always_rx.try_recv().unwrap().take_line(), Some("a".to_string()));
    assert_eq!(always_rx.try_recv().unwrap().take_line(), Some("aa".to_string()));
}

#[test]
fn blank_lines_are_told_apart() {
    assert!(blank(""));
    assert!(blank(" \t\u{a0}\u{3000}\r\n"));
    assert!(!blank(" x "));
    assert!(!blank("\u{200b}"));
}

#[test]
fn the_terminal_is_served() {
    let action = terminal_action(TerminalEvent::Input(" list ".to_string()));
    assert!(matches!(action, TerminalAction::Send(line) if line == " list "));
    let action = terminal_action(TerminalEvent::Input(" \t".to_string()));
    assert!(matches!(action, TerminalAction::Stop { remove_prompt: false }));
    assert!(matches!(terminal_action(TerminalEvent::Interrupt), TerminalAction::RaiseInterrupt));
    let action = terminal_action(TerminalEvent::ServerClosed);
    assert!(matches!(action, TerminalAction::Stop { remove_prompt: true }));
    assert!(matches!(terminal_action(TerminalEvent::Other), TerminalAction::Continue));
}

#[test]
fn a_line_of_the_user_is_a_console_command() {
    let request = user_request(" \tlist ", 4, 9);
    assert_eq!(request.done, 9);
    assert_eq!(request.client_id, 4);
    match request.command {
        AttendantCommand::SendCommand(slash) => assert_eq!(slash, "list "),
        _ => panic!("not a console command"),
    }
}

#[test]
fn whitespace_is_what_std_says() {
    for c in '\0'..='\u{10ffff}' {
        let white_space = matches!(c,
            '\u{9}'..='\u{d}' | ' ' | '\u{85}' | '\u{a0}' | '\u{1680}' | '\u{2000}'..='\u{200a}'
            | '\u{2028}' | '\u{2029}' | '\u{202f}' | '\u{205f}' | '\u{3000}');
        assert_eq!(is_whitespace(c), white_space, "{:?}", c);
        assert_eq!(is_whitespace(c), c.is_whitespace(), "{:?}", c);
        assert_eq!(blank(&c.to_string()), white_space, "{:?}", c);
    }
}

#[test]
fn limits_that_cannot_be_counted_down_are_found() {
    let filter = |count: Option<i32>, fail: Option<i32>| {
        OutputFilter::new(Regex::new("a").unwrap()).count(count).fail(fail).build().0
    };
    assert!(can_run(&vec![]));
    assert!(can_run(&vec![filter(None, Some(-1)), filter(Some(i32::MAX), None)]));
    assert!(!can_run(&vec![filter(None, None), filter(Some(i32::MIN), None)]));
    assert!(!can_run(&vec![filter(None, Some(i32::MIN))]));
}

#[test]
fn a_ready_line_reaches_a_matching_filter() {
    let mut checker = checker();
    let (filter, mut rx) = OutputFilter::new(Regex::new("^Done").unwrap()).build();
    let mut filters = vec![filter];
    let line = ">....\r[12:00:00 INFO]: Done (3.2s)! For help";
    let output = process_line(line, &mut filters, &mut checker);
    assert_eq!(output.status, StatusChange::Ready);
    assert_eq!(
        rx.try_recv().unwrap().take_line(),
        Some("Done (3.2s)! For help\x1B[m".to_string())
    );
    assert!(rx.try_recv().is_err());
    assert_eq!((checker.is_ready, checker.is_closed), (true, false));
    assert_eq!(filters.len(), 1);
}
