use mcclwrap::filters::{FilterOutput, OurInputFilter};
use mcclwrap::minecraft::AttendantCommand;
use mcclwrap::secretary::{
    check_outcome, compile_regex, filter_reply, reply_bail, reply_err, reply_farewell,
    reply_ok, AttendantAnswer,
    AttendantProcessor, ConnectionAction, ConnectionEvent, Pending, RecvFailure, SendOutcome, Step,
};
use regex::Regex;

type Processor = AttendantProcessor<&'static str>;

/// The line of a reply that keeps the connection open.
fn line_of(step: Step<&'static str>) -> String {
    match step {
        Step::Reply(answer) => {
            assert!(!answer.end_connection);
            answer.line
        }
        _ => panic!("not a reply"),
    }
}

/// What is left to do for a command once its request is sent.
fn sent(step: Step<&'static str>) -> (String, AttendantCommand<&'static str>, Pending<&'static str>) {
    match step {
        Step::Send { header, command, pending } => (header, command, pending),
        _ => panic!("nothing sent"),
    }
}

/// Starts a guard and returns its id.
fn start_guard(processor: &mut Processor, line: &str) -> (u32, OurInputFilter<&'static str>, u64) {
    let (header, regex, seconds) = match processor.process_command(line) {
        Step::OpenGuard { header, regex, seconds } => (header, regex, seconds),
        _ => panic!("no guard"),
    };
    let (header, command, pending) = sent(processor.open_guard(header, regex, seconds, "bell"));
    let (filter, seconds) = match command {
        AttendantCommand::StartGuard(filter, seconds) => (filter, seconds),
        _ => panic!("no guard"),
    };
    match processor.request_sent(&header, SendOutcome::Done, pending) {
        Step::GuardStarted { answer, filter_id } => {
            assert_eq!(answer.line, format!("{}: ok {}\n", header, filter_id));
            (filter_id, filter, seconds)
        }
        _ => panic!("no guard"),
    }
}

#[test]
fn answers_end_with_one_newline() {
    let answer = AttendantAnswer::new("a: ok  \t\n\n ".to_string());
    assert_eq!(answer.line, "a: ok\n");
    assert!(!answer.end_connection);
    let answer = AttendantAnswer::closed("bye".to_string());
    assert_eq!(answer.line, "bye\n");
    assert!(answer.end_connection);
    assert_eq!(AttendantAnswer::new(String::new()).line, "\n");
    assert_eq!(AttendantAnswer::new("a\u{a0}".to_string()).line, "a\u{a0}\n");
}

#[test]
fn replies_have_the_form_of_replies() {
    assert_eq!(reply_ok("[1] slash", "").line, "[1] slash: ok\n");
    assert_eq!(reply_ok("get-line", " x ").line, "get-line: ok  x\n");
    assert_eq!(reply_err("slash", "missing command").line, "slash: error missing command\n");
    let bail = reply_bail("ready", "unknown server status");
    assert_eq!(bail.line, "ready: bail unknown server status\n");
    assert!(bail.end_connection);
    let farewell = reply_farewell("[3] cya");
    assert_eq!(farewell.line, "[3] cya: ok\n");
    assert!(farewell.end_connection);
}

#[test]
fn filter_output_is_told_to_the_client() {
    assert_eq!(
        filter_reply(5, Ok(FilterOutput::Line("<pashiin> hi ".to_string()))),
        ("filter 5: ok <pashiin> hi \n".to_string(), false)
    );
    assert_eq!(
        filter_reply(5, Err(RecvFailure::Lagged(12))),
        ("filter 5: error lagged 12\n".to_string(), false)
    );
    assert_eq!(
        filter_reply(4294967295, Ok(FilterOutput::Expired)),
        ("filter 4294967295: ok done\n".to_string(), true)
    );
    assert_eq!(
        filter_reply(0, Err(RecvFailure::Closed)),
        ("filter 0: ok done\n".to_string(), true)
    );
}

#[test]
fn expensive_and_malformed_regexes_are_refused() {
    assert_eq!(compile_regex("get-line", "^a+$").unwrap().as_str(), "^a+$");
    let malformed = compile_regex("get-line", "(").unwrap_err();
    assert_eq!(malformed.line, "get-line: error invalid or expensive regex\n");
    let expensive = compile_regex("get-line", "(\\w{1000}){1000}").unwrap_err();
    assert_eq!(expensive.line, "get-line: error invalid or expensive regex\n");
}

#[test]
fn outcomes_of_requests() {
    assert!(check_outcome("slash", SendOutcome::Done).is_ok());
    assert_eq!(
        check_outcome("slash", SendOutcome::NotSent).unwrap_err().line,
        "slash: error server stopped handling commands\n"
    );
    assert_eq!(
        check_outcome("slash", SendOutcome::NotHandled).unwrap_err().line,
        "slash: error command was not handled\n"
    );
}

#[test]
fn unknown_and_malformed_requests_are_refused() {
    let mut processor = Processor::new(0);
    assert_eq!(line_of(processor.process_command("")), ": error invalid request\n");
    assert_eq!(line_of(processor.process_command(" ready")), ": error invalid request\n");
    assert_eq!(line_of(processor.process_command("[x] ready")), ": error invalid request\n");
    assert_eq!(line_of(processor.process_command("[1] fly high")), "fly: error unknown command\n");
    assert_eq!(line_of(processor.process_command("Ready")), "Ready: error unknown command\n");
}

#[test]
fn ready_waits_for_the_server() {
    let mut processor = Processor::new(0);
    match processor.process_command("[7] ready") {
        Step::WaitReady { header } => {
            assert_eq!(header, "[7] ready");
            assert_eq!(Processor::server_ready(&header, Some(())).line, "[7] ready: ok\n");
            let gone = Processor::server_ready(&header, None);
            assert_eq!(gone.line, "[7] ready: bail unknown server status\n");
            assert!(gone.end_connection);
        }
        _ => panic!("does not wait"),
    }
}

#[test]
fn cya_closes_the_connection() {
    let mut processor = Processor::new(0);
    match processor.process_command("cya") {
        Step::Reply(answer) => {
            assert_eq!(answer.line, "cya: ok\n");
            assert!(answer.end_connection);
        }
        _ => panic!("not a reply"),
    }
}

#[test]
fn slash_sends_a_console_command() {
    let mut processor = Processor::new(3);
    assert_eq!(line_of(processor.process_command("slash")), "slash: error missing command\n");
    assert_eq!(line_of(processor.process_command("slash ")), "slash: error missing command\n");
    let step = processor.process_command("slash say Never mine straight down");
    let (header, command, pending) = sent(step);
    assert_eq!(command.get_slash(), Some("say Never mine straight down"));
    let request = processor.new_request("done", command);
    assert_eq!(request.client_id, 3);
    assert_eq!(request.done, "done");
    assert_eq!(line_of(processor.request_sent(&header, SendOutcome::Done, pending)), "slash: ok\n");
    let lost = processor.request_sent(&header, SendOutcome::NotHandled, Pending::Slash);
    assert_eq!(line_of(lost), "slash: error command was not handled\n");
}

#[test]
fn get_line_waits_for_a_line() {
    let mut processor = Processor::new(0);
    let step = processor.process_command("get-line r#\"^There are\"# list");
    let (header, command, pending) = sent(step);
    let mut filter = match command {
        AttendantCommand::GetLine(slash, filter) => {
            assert_eq!(slash, "list");
            filter
        }
        _ => panic!("no line wanted"),
    };
    assert_eq!(filter.count, Some(1));
    assert_eq!(filter.fail, Some(64));
    assert!(filter.ignore_chat);
    assert!(filter.check("Nothing", false));
    assert!(!filter.check("There are 0 of max 20 players online\x1B[m", false));
    let (header, mut rx) = match processor.request_sent(&header, SendOutcome::Done, pending) {
        Step::WaitLine { header, rx } => (header, rx),
        _ => panic!("does not wait"),
    };
    let answer = Processor::line_received(&header, rx.try_recv().ok());
    assert_eq!(answer.line, "get-line: ok There are 0 of max 20 players online\x1B[m\n");
    let answer = Processor::line_received(&header, rx.try_recv().ok());
    assert_eq!(answer.line, "get-line: error line not found\n");
    assert_eq!(Processor::line_received("x", None).line, "x: error line not found\n");
}

#[test]
fn get_line_refuses_bad_arguments() {
    let mut processor = Processor::new(0);
    assert_eq!(
        line_of(processor.process_command("get-line list")),
        "get-line: error invalid arguments\n"
    );
    assert_eq!(
        line_of(processor.process_command("get-line r#\"(\"# list")),
        "get-line: error invalid or expensive regex\n"
    );
}

#[test]
fn guards_are_started_renewed_and_ended() {
    let mut processor = Processor::new(2);
    let (id, filter, seconds) = start_guard(&mut processor, "guard-begin r#\"^save-\"#");
    assert_eq!(id, 0);
    assert_eq!(seconds, 15);
    assert_eq!(filter.0.client_id, 2);
    assert_eq!(filter.0.expired, "bell");
    assert_eq!(filter.0.regex.as_str(), "^save-");
    assert_eq!(filter.strong_count(), 2);
    let (id, other, seconds) = start_guard(&mut processor, "[5] guard-begin r#\"^a\"# 50s");
    assert_eq!(id, 1);
    assert_eq!(seconds, 50);
    assert!(filter != other);

    let (header, command, pending) = sent(processor.process_command("guard-renew 01 20s"));
    match command {
        AttendantCommand::RenewGuard(renewed, seconds) => {
            assert!(renewed == other);
            assert_eq!(seconds, 20);
        }
        _ => panic!("not renewed"),
    }
    let renewed = processor.request_sent(&header, SendOutcome::Done, pending);
    assert_eq!(line_of(renewed), "guard-renew: ok 01\n");

    let (header, command, pending) = sent(processor.process_command("guard-renew 0"));
    match command {
        AttendantCommand::RenewGuard(renewed, seconds) => {
            assert!(renewed == filter);
            assert_eq!(seconds, 15);
        }
        _ => panic!("not renewed"),
    }
    let renewed = processor.request_sent(&header, SendOutcome::Done, pending);
    assert_eq!(line_of(renewed), "guard-renew: ok 0\n");

    assert_eq!(line_of(processor.process_command("guard-end 1")), "guard-end: ok 1\n");
    assert_eq!(other.strong_count(), 1);
    assert_eq!(
        line_of(processor.process_command("guard-end 1")),
        "guard-end: error no such guard\n"
    );
    assert_eq!(
        line_of(processor.process_command("guard-renew 1 20s")),
        "guard-renew: error no such guard\n"
    );
}

#[test]
fn guard_commands_refuse_bad_arguments() {
    let mut processor = Processor::new(0);
    let mut reply = |line: &str| line_of(processor.process_command(line));
    assert_eq!(reply("guard-begin x"), "guard-begin: error invalid arguments\n");
    assert_eq!(
        reply("guard-begin r#\"(\"#"),
        "guard-begin: error invalid or expensive regex\n"
    );
    assert_eq!(
        reply("guard-begin r#\"a\"# 18446744073709551616s"),
        "guard-begin: error invalid duration\n"
    );
    assert_eq!(reply("guard-renew 1 "), "guard-renew: error invalid arguments\n");
    assert_eq!(reply("guard-renew 1 20"), "guard-renew: error invalid arguments\n");
    assert_eq!(reply("guard-renew 1"), "guard-renew: error no such guard\n");
    assert_eq!(reply("guard-renew 4294967296"), "guard-renew: error invalid filter id\n");
    assert_eq!(reply("guard-renew 4294967296 1s"), "guard-renew: error invalid filter id\n");
    assert_eq!(
        reply("guard-renew 1 18446744073709551616s"),
        "guard-renew: error invalid duration\n"
    );
    assert_eq!(reply("guard-end x"), "guard-end: error invalid arguments\n");
    assert_eq!(reply("guard-end 4294967296"), "guard-end: error invalid filter id\n");
    assert_eq!(reply("filter-start x"), "filter-start: error invalid arguments\n");
    assert_eq!(
        reply("filter-start r#\"(\"#"),
        "filter-start: error invalid or expensive regex\n"
    );
    assert_eq!(reply("filter-stop "), "filter-stop: error invalid arguments\n");
    assert_eq!(reply("filter-stop 4294967296"), "filter-stop: error invalid filter id\n");
    assert_eq!(reply("filter-stop 1"), "filter-stop: error no such filter\n");
}

#[test]
fn an_expired_guard_is_told_once() {
    let mut processor = Processor::new(0);
    let (id, filter, _) = start_guard(&mut processor, "guard-begin r#\"a\"# 1s");
    assert_eq!(processor.guard_expired(id).unwrap().line, "guard 0: error expired\n");
    assert!(processor.guard_expired(id).is_none());
    assert_eq!(filter.strong_count(), 1);
    let (id, _, _) = start_guard(&mut processor, "guard-begin r#\"a\"# 1s");
    processor.process_command("guard-end 1");
    assert!(processor.guard_expired(id).is_none());
}

#[test]
fn filters_are_started_and_stopped() {
    let mut processor = Processor::new(0);
    let step = processor.process_command("filter-start r#\"tps\"# ignore-chat count=10 fail=3");
    let (header, command, pending) = sent(step);
    match command {
        AttendantCommand::AddOutputFilter(filter) => {
            assert_eq!(filter.regex.as_str(), "tps");
            assert!(filter.ignore_chat);
            assert_eq!(filter.count, Some(10));
            assert_eq!(filter.fail, Some(3));
        }
        _ => panic!("no filter"),
    }
    let started = processor.request_sent(&header, SendOutcome::Done, pending);
    assert_eq!(line_of(started), "filter-start: ok 0\n");
    assert!(processor.output_filters.contains_key(&0));
    assert_eq!(line_of(processor.process_command("filter-stop 0")), "filter-stop: ok 0\n");
    assert!(processor.output_filters.is_empty());

    let (header, command, pending) = sent(processor.process_command("filter-start r#\"a\"#"));
    match command {
        AttendantCommand::AddOutputFilter(filter) => {
            assert!(!filter.ignore_chat);
            assert_eq!(filter.count, None);
            assert_eq!(filter.fail, None);
        }
        _ => panic!("no filter"),
    }
    let refused = processor.request_sent(&header, SendOutcome::NotSent, pending);
    assert_eq!(line_of(refused), "filter-start: error server stopped handling commands\n");
    assert!(processor.output_filters.is_empty());
    assert_eq!(processor.new_request_id(), 1);
}

#[test]
fn steps_after_the_regex_is_compiled() {
    let regex = || Regex::new("a").unwrap();
    let (header, command, _) = sent(Processor::get_line_with("h", regex(), "list"));
    assert_eq!(header, "h");
    assert_eq!(command.get_slash(), Some("list"));
    match Processor::guard_begin_with("h", regex(), None) {
        Step::OpenGuard { header, regex, seconds } => {
            assert_eq!(header, "h");
            assert_eq!(regex.as_str(), "a");
            assert_eq!(seconds, 15);
        }
        _ => panic!("no guard"),
    }
}

#[test]
fn the_connection_is_served() {
    let mut processor = Processor::new(0);
    let (header, _, pending) = sent(processor.process_command("filter-start r#\"a\"#"));
    processor.request_sent(&header, SendOutcome::Done, pending);
    let line = Ok(FilterOutput::Line("x".to_string()));
    match processor.connection_event(ConnectionEvent::FilterOutput(0, line)) {
        ConnectionAction::Write { line, close } => {
            assert_eq!(line, "filter 0: ok x\n");
            assert!(!close);
        }
        _ => panic!("nothing written"),
    }
    assert_eq!(processor.output_filters.len(), 1);
    let last = ConnectionEvent::FilterOutput(0, Err(RecvFailure::Closed));
    assert!(matches!(processor.connection_event(last), ConnectionAction::Write { .. }));
    assert!(processor.output_filters.is_empty());
    match processor.connection_event(ConnectionEvent::Answer(reply_farewell("cya"))) {
        ConnectionAction::Write { line, close } => {
            assert_eq!(line, "cya: ok\n");
            assert!(close);
        }
        _ => panic!("nothing written"),
    }
    let command = processor.connection_event(ConnectionEvent::Command("ready".to_string()));
    assert!(matches!(command, ConnectionAction::Process(line) if line == "ready"));
    let unreadable = processor.connection_event(ConnectionEvent::Unreadable);
    assert!(matches!(unreadable, ConnectionAction::Close));
    let exhausted = processor.connection_event(ConnectionEvent::Exhausted);
    assert!(matches!(exhausted, ConnectionAction::Close));
}

#[test]
fn everything_is_written_in_order_up_to_the_end() {
    let mut processor = Processor::new(0);
    let events = vec![
        ConnectionEvent::Answer(reply_ok("slash", "")),
        ConnectionEvent::FilterOutput(4, Ok(FilterOutput::Line("x".to_string()))),
        ConnectionEvent::Command("cya".to_string()),
        ConnectionEvent::Answer(reply_err("get-line", "line not found")),
        ConnectionEvent::Answer(reply_farewell("cya")),
        ConnectionEvent::Answer(reply_ok("ready", "")),
    ];
    let mut written = Vec::new();
    for event in events {
        match processor.connection_event(event) {
            ConnectionAction::Write { line, close } => {
                written.push(line);
                if close {
                    break;
                }
            }
            ConnectionAction::Process(line) => assert_eq!(line, "cya"),
            ConnectionAction::Close => break,
        }
    }
    assert_eq!(
        written,
        vec![
            "slash: ok\n",
            "filter 4: ok x\n",
            "get-line: error line not found\n",
            "cya: ok\n",
        ]
    );
}
