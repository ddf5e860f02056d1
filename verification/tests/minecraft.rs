use std::cell::RefCell;
use std::rc::Rc;
use std::sync::Arc;
use std::task::Poll;

use futures::future::poll_fn;
use mcclwrap::expiroset::{ExpiroSet, Expiry};
use mcclwrap::filters::{InputFilter, OurInputFilter, OutputFilter};
use mcclwrap::minecraft::{
    AttendantCommand, AttendantRequest, GuardPoll, HandlerAction, HandlerEvent, NextEvent, Processed,
    RequestHandler,
};
use mcclwrap::ready::Signal;
use regex::Regex;
use tokio::runtime::Runtime;
use tokio::time::{delay_for, Duration};

type Log = Rc<RefCell<Vec<String>>>;

/// Notes down its name when it is told that it is ready.
struct Bell(String, Log);

impl Signal for Bell {
    fn ready(&self) -> Option<()> {
        self.1.borrow_mut().push(self.0.clone());
        Some(())
    }
}

fn bell(name: &str, log: &Log) -> Bell {
    Bell(name.to_string(), log.clone())
}

fn guard(pattern: &str, client_id: u32, key: u64, log: &Log) -> OurInputFilter<Bell> {
    OurInputFilter(Arc::new(InputFilter {
        regex: Regex::new(pattern).unwrap(),
        expired: bell(&format!("expired {}", key), log),
        client_id,
        key,
    }))
}

fn request(
    command: AttendantCommand<Bell>,
    client_id: u32,
    name: &str,
    log: &Log,
) -> AttendantRequest<Bell> {
    AttendantRequest { done: bell(name, log), command, client_id }
}

fn slash(command: &str, client_id: u32, log: &Log) -> AttendantRequest<Bell> {
    request(AttendantCommand::SendCommand(command.to_string()), client_id, command, log)
}

/// The line to write, or nothing if the request is queued.
fn line_of(processed: Processed<Bell>) -> Option<Option<String>> {
    match processed {
        Processed::Queued => None,
        Processed::Handled { line, done } => {
            done.ready();
            Some(line)
        }
    }
}

fn new_handler() -> RequestHandler<Bell> {
    RequestHandler::new(ExpiroSet::new())
}

#[test]
fn only_console_commands_hold_a_slash() {
    let log = Log::default();
    let (filter, _rx) = OutputFilter::new(Regex::new("a").unwrap()).build();
    let get_line = AttendantCommand::<Bell>::GetLine("list".to_string(), filter);
    assert_eq!(get_line.get_slash(), Some("list"));
    assert_eq!(AttendantCommand::<Bell>::SendCommand("say".to_string()).get_slash(), Some("say"));
    assert_eq!(AttendantCommand::StartGuard(guard("a", 0, 0, &log), 1).get_slash(), None);
    assert_eq!(AttendantCommand::RenewGuard(guard("a", 0, 0, &log), 1).get_slash(), None);
}

#[test]
fn commands_end_with_a_newline() {
    Runtime::new().unwrap().block_on(async {
        let log = Log::default();
        let mut handler = new_handler();
        let mut outputs = Vec::new();
        let processed = handler.process_request(slash(" list", 0, &log), &mut outputs);
        assert_eq!(line_of(processed), Some(Some(" list\n".to_string())));
        let processed = handler.process_request(slash("list\n", 0, &log), &mut outputs);
        assert_eq!(line_of(processed), Some(Some("list\n".to_string())));
        assert_eq!(*log.borrow(), vec![" list", "list\n"]);
    });
}

#[test]
fn output_filters_are_added() {
    Runtime::new().unwrap().block_on(async {
        let log = Log::default();
        let mut handler = new_handler();
        let mut outputs = Vec::new();
        let (filter, _rx) = OutputFilter::new(Regex::new("a").unwrap()).build();
        let add = request(AttendantCommand::AddOutputFilter(filter), 0, "add", &log);
        assert_eq!(line_of(handler.process_request(add, &mut outputs)), Some(None));
        let (filter, _rx) = OutputFilter::new(Regex::new("b").unwrap()).build();
        let get = request(AttendantCommand::GetLine("list".to_string(), filter), 0, "get", &log);
        assert_eq!(
            line_of(handler.process_request(get, &mut outputs)),
            Some(Some("list\n".to_string()))
        );
        assert_eq!(outputs.len(), 2);
        assert_eq!(outputs[0].regex.as_str(), "a");
        assert_eq!(outputs[1].regex.as_str(), "b");
    });
}

#[test]
fn a_guard_blocks_other_clients_until_it_is_dropped() {
    Runtime::new().unwrap().block_on(async {
        let log = Log::default();
        let mut handler = new_handler();
        let mut outputs = Vec::new();
        let kept = guard("^save-", 1, 10, &log);
        let start = request(AttendantCommand::StartGuard(kept.clone(), 15), 1, "start", &log);
        assert!(handler.can_process(&start));
        assert_eq!(line_of(handler.process_request(start, &mut outputs)), Some(None));

        // Its own attendant and commands that do not match pass
        let mut passes = |handler: &mut RequestHandler<Bell>, command: &str, client_id: u32| {
            line_of(handler.process_request(slash(command, client_id, &log), &mut outputs)).is_some()
        };
        assert!(passes(&mut handler, "save-all", 1));
        assert!(passes(&mut handler, "list", 2));
        // Leading spaces do not help
        assert!(!passes(&mut handler, " \tsave-all", 2));
        assert!(!passes(&mut handler, "save-off", 3));
        assert!(handler.next_unblocked().is_none());

        // The attendant drops its copy, and the next command refreshes the guards
        drop(kept);
        assert!(passes(&mut handler, "save-on", 2));
        assert_eq!(handler.next_unblocked().unwrap().done.0, " \tsave-all");
        assert_eq!(handler.next_unblocked().unwrap().done.0, "save-off");
        assert!(handler.next_unblocked().is_none());
    });
}

#[test]
fn the_first_matching_guard_decides() {
    Runtime::new().unwrap().block_on(async {
        let log = Log::default();
        let mut handler = new_handler();
        let mut outputs = Vec::new();
        let mine = guard("a", 1, 1, &log);
        let theirs = guard("a", 2, 2, &log);
        for (filter, client) in [(&mine, 1), (&theirs, 2)].iter() {
            let start = AttendantCommand::StartGuard((*filter).clone(), 15);
            handler.process_request(request(start, *client, "start", &log), &mut outputs);
        }
        assert!(handler.check_input_filters(slash("a", 1, &log)).is_some());
        assert!(handler.check_input_filters(slash("a", 2, &log)).is_none());
        let back = handler.check_input_filters(request(
            AttendantCommand::RenewGuard(mine.clone(), 1),
            3,
            "renew",
            &log,
        ));
        assert_eq!(back.unwrap().done.0, "renew");
    });
}

#[test]
fn counts_decide_which_guards_are_dropped() {
    Runtime::new().unwrap().block_on(async {
        let log = Log::default();
        let mut handler = new_handler();
        let mut outputs = Vec::new();
        let guards = [guard("a", 1, 1, &log), guard("b", 1, 2, &log), guard("c", 1, 3, &log)];
        for filter in guards.iter() {
            let start = AttendantCommand::StartGuard(filter.clone(), 15);
            handler.process_request(request(start, 1, "start", &log), &mut outputs);
        }
        assert!(handler.check_input_filters(slash("b", 2, &log)).is_none());
        // The second is held by two but blocks something, and the third is held by one
        handler.remove_unused_input_filters(&vec![2, 2, 1]);
        assert_eq!(handler.next_unblocked().unwrap().done.0, "b");
        assert!(handler.pass_or_queue(slash("a", 2, &log), "a").is_none());
        assert!(handler.pass_or_queue(slash("b", 2, &log), "b").is_some());
        assert!(handler.pass_or_queue(slash("c", 2, &log), "c").is_some());
        handler.remove_expired_input_filters();
        assert!(handler.pass_or_queue(slash("a", 2, &log), "a").is_none());
    });
}

#[test]
fn an_expired_guard_lets_its_requests_go() {
    Runtime::new().unwrap().block_on(async {
        let log = Log::default();
        let mut handler = new_handler();
        let mut outputs = Vec::new();
        let short = guard("a", 1, 1, &log);
        let long = guard("b", 1, 2, &log);
        for (filter, seconds) in [(&short, 0), (&long, 1000)].iter() {
            let start = AttendantCommand::StartGuard((*filter).clone(), *seconds);
            handler.process_request(request(start, 1, "start", &log), &mut outputs);
        }
        handler.process_request(slash("a1", 2, &log), &mut outputs);
        handler.process_request(slash("b1", 2, &log), &mut outputs);
        handler.process_request(slash("a2", 3, &log), &mut outputs);
        let poll = poll_fn(|cx| match handler.poll_expired_guard(cx) {
            GuardPoll::Pending => Poll::Pending,
            poll => Poll::Ready(poll),
        })
        .await;
        match poll {
            GuardPoll::Expired(filter) => {
                assert_eq!(filter.0.key, 1);
                assert!(log.borrow().is_empty());
                match handler.handle_event(
                    HandlerEvent::Guard(GuardPoll::Expired(filter)),
                    &mut outputs,
                ) {
                    HandlerAction::TellExpired(filter) => {
                        assert_eq!(filter.0.signal_expiration(), Some(()));
                    }
                    _ => panic!("the client is not told"),
                }
            }
            _ => panic!("no guard has expired"),
        }
        assert_eq!(*log.borrow(), vec!["expired 1"]);
        assert_eq!(handler.next_unblocked().unwrap().done.0, "a1");
        assert_eq!(handler.next_unblocked().unwrap().done.0, "a2");
        assert!(handler.next_unblocked().is_none());
        assert!(handler.check_input_filters(slash("a3", 2, &log)).is_some());
        assert!(handler.check_input_filters(slash("b2", 2, &log)).is_none());
        handler.requeue_requests_blocked_by(&long);
        assert_eq!(handler.next_unblocked().unwrap().done.0, "b1");
        assert_eq!(handler.next_unblocked().unwrap().done.0, "b2");
    });
}

#[test]
fn a_renewed_guard_lasts_as_long_as_it_was_told() {
    Runtime::new().unwrap().block_on(async {
        let log = Log::default();
        let mut handler = new_handler();
        let mut outputs = Vec::new();
        let filter = guard("a", 1, 1, &log);
        let start = AttendantCommand::StartGuard(filter.clone(), 1000);
        handler.process_request(request(start, 1, "start", &log), &mut outputs);
        let renew = AttendantCommand::RenewGuard(filter.clone(), 0);
        let renewed = handler.process_request(request(renew, 1, "renew", &log), &mut outputs);
        assert_eq!(line_of(renewed), Some(None));
        let poll = poll_fn(|cx| match handler.poll_expired_guard(cx) {
            GuardPoll::Pending => Poll::Pending,
            poll => Poll::Ready(poll),
        })
        .await;
        assert!(matches!(poll, GuardPoll::Expired(expired) if expired.0.key == 1));
    });
}

#[test]
fn guards_cannot_last_for_ever() {
    Runtime::new().unwrap().block_on(async {
        let log = Log::default();
        let handler = new_handler();
        let start = |seconds: u64| {
            request(AttendantCommand::StartGuard(guard("a", 1, 1, &log), seconds), 1, "s", &log)
        };
        let renew = |seconds: u64| {
            request(AttendantCommand::RenewGuard(guard("a", 1, 1, &log), seconds), 1, "r", &log)
        };
        assert!(handler.can_process(&start(34359738)));
        assert!(!handler.can_process(&start(34359739)));
        assert!(!handler.can_process(&start(u64::MAX)));
        // There is no such guard to renew
        assert!(handler.can_process(&renew(u64::MAX)));
        assert!(handler.can_process(&slash("a", 1, &log)));
    });
}

#[test]
fn renewing_an_unknown_guard_changes_nothing() {
    Runtime::new().unwrap().block_on(async {
        let log = Log::default();
        let mut handler = new_handler();
        let mut outputs = Vec::new();
        let renew = AttendantCommand::RenewGuard(guard("a", 1, 1, &log), u64::MAX);
        let renewed = handler.process_request(request(renew, 1, "renew", &log), &mut outputs);
        assert_eq!(line_of(renewed), Some(None));
        assert!(handler.check_input_filters(slash("a", 2, &log)).is_some());
    });
}

#[test]
fn the_handler_stops_when_nothing_is_left_to_do() {
    Runtime::new().unwrap().block_on(async {
        let log = Log::default();
        let mut handler = new_handler();
        let mut outputs = Vec::new();
        let event = HandlerEvent::Request(slash("list", 1, &log));
        match handler.handle_event(event, &mut outputs) {
            HandlerAction::Complete { line, done } => {
                assert_eq!(line, Some("list\n".to_string()));
                assert_eq!(done.0, "list");
            }
            _ => panic!("not completed"),
        }
        let stops = |action: HandlerAction<Bell>| matches!(action, HandlerAction::Stop);
        assert!(stops(handler.handle_event(HandlerEvent::NoMoreRequests, &mut outputs)));
        let failed = |shutdown: bool| HandlerEvent::Guard(GuardPoll::Failed { shutdown });
        assert!(stops(handler.handle_event(failed(true), &mut outputs)));
        assert!(!stops(handler.handle_event(failed(false), &mut outputs)));
        let expired = HandlerEvent::Guard(GuardPoll::Expired(guard("a", 1, 7, &log)));
        match handler.handle_event(expired, &mut outputs) {
            HandlerAction::TellExpired(filter) => assert_eq!(filter.0.key, 7),
            _ => panic!("the client is not told"),
        }
        let poll = poll_fn(|cx| Poll::Ready(handler.poll_expired_guard(cx))).await;
        assert!(matches!(poll, GuardPoll::Empty));
    });
}

#[test]
fn without_guards_there_is_nothing_to_wait_for() {
    Runtime::new().unwrap().block_on(async {
        let log = Log::default();
        let mut handler = new_handler();
        let mut outputs = Vec::new();
        for _ in 0..2 {
            let poll = poll_fn(|cx| Poll::Ready(handler.poll_expired_guard(cx))).await;
            assert!(matches!(poll, GuardPoll::Empty));
            handler.process_request(slash("list", 1, &log), &mut outputs);
        }
        let start = AttendantCommand::StartGuard(guard("a", 1, 1, &log), 1000);
        handler.process_request(request(start, 1, "start", &log), &mut outputs);
        let poll = poll_fn(|cx| Poll::Ready(handler.poll_expired_guard(cx))).await;
        assert!(matches!(poll, GuardPoll::Pending));
    });
}

#[test]
fn each_outcome_of_polling_is_handled() {
    Runtime::new().unwrap().block_on(async {
        let log = Log::default();
        let mut handler = new_handler();
        let mut outputs = Vec::new();
        let kept = guard("a", 1, 1, &log);
        let start = AttendantCommand::StartGuard(kept.clone(), 1000);
        handler.process_request(request(start, 1, "start", &log), &mut outputs);
        assert!(handler.check_input_filters(slash("a", 2, &log)).is_none());
        assert!(matches!(handler.guard_polled(Expiry::Pending), GuardPoll::Pending));
        assert!(matches!(handler.guard_polled(Expiry::Empty), GuardPoll::Empty));
        let failed = handler.guard_polled(Expiry::Failed { shutdown: true });
        assert!(matches!(failed, GuardPoll::Failed { shutdown: true }));
        let failed = handler.guard_polled(Expiry::Failed { shutdown: false });
        assert!(matches!(failed, GuardPoll::Failed { shutdown: false }));
        assert!(log.borrow().is_empty());
        assert!(handler.next_unblocked().is_none());
        let expired = handler.guard_polled(Expiry::Expired(kept));
        assert!(matches!(expired, GuardPoll::Expired(filter) if filter.0.key == 1));
        assert!(log.borrow().is_empty());
        assert_eq!(handler.next_unblocked().unwrap().done.0, "a");
    });
}

#[test]
fn a_blocked_request_is_not_done() {
    Runtime::new().unwrap().block_on(async {
        let log = Log::default();
        let mut handler = new_handler();
        let mut outputs = Vec::new();
        let kept = guard("^save", 1, 1, &log);
        let start = AttendantCommand::StartGuard(kept.clone(), 15);
        let started = handler.process_request(request(start, 1, "start", &log), &mut outputs);
        assert_eq!(line_of(started), Some(None));
        assert_eq!(*log.borrow(), vec!["start"]);
        let blocked = handler.process_request(slash("save-all", 2, &log), &mut outputs);
        assert_eq!(line_of(blocked), None);
        let passed = handler.process_request(slash("list", 2, &log), &mut outputs);
        assert_eq!(line_of(passed), Some(Some("list\n".to_string())));
        assert_eq!(*log.borrow(), vec!["start", "list"]);
    });
}

#[test]
fn of_guards_with_one_duration_the_older_expires() {
    Runtime::new().unwrap().block_on(async {
        let log = Log::default();
        let mut handler = new_handler();
        let mut outputs = Vec::new();
        let guards = [guard("a", 1, 1, &log), guard("b", 1, 2, &log)];
        for filter in guards.iter() {
            let start = AttendantCommand::StartGuard(filter.clone(), 1);
            handler.process_request(request(start, 1, "start", &log), &mut outputs);
            delay_for(Duration::from_millis(50)).await;
        }
        for key in [1, 2].iter() {
            let poll = poll_fn(|cx| match handler.poll_expired_guard(cx) {
                GuardPoll::Pending => Poll::Pending,
                poll => Poll::Ready(poll),
            })
            .await;
            assert!(matches!(poll, GuardPoll::Expired(expired) if expired.0.key == *key));
        }
    });
}

#[test]
fn unblocked_requests_come_before_new_ones() {
    Runtime::new().unwrap().block_on(async {
        let log = Log::default();
        let mut handler = new_handler();
        let mut outputs = Vec::new();
        assert!(matches!(handler.next_event(), NextEvent::Wait));
        let kept = guard("a", 1, 1, &log);
        let start = AttendantCommand::StartGuard(kept.clone(), 1000);
        handler.process_request(request(start, 1, "start", &log), &mut outputs);
        for command in ["a1", "a2", "a3"].iter() {
            handler.process_request(slash(command, 2, &log), &mut outputs);
        }
        assert!(matches!(handler.next_event(), NextEvent::Wait));
        handler.requeue_requests_blocked_by(&kept);
        drop(kept);
        for command in ["a1", "a2", "a3"].iter() {
            match handler.next_event() {
                NextEvent::Process(request) => {
                    assert_eq!(request.done.0, *command);
                    let processed = handler.process_request(request, &mut outputs);
                    assert_eq!(line_of(processed), Some(Some(format!("{}\n", command))));
                }
                NextEvent::Wait => panic!("a request is left"),
            }
        }
        assert!(matches!(handler.next_event(), NextEvent::Wait));
    });
}
