use std::cell::Cell;
use std::rc::Rc;
use std::sync::Arc;

use mcclwrap::filters::{FilterOutput, InputFilter, OurInputFilter, OutputFilter, Verdict};
use mcclwrap::minecraft::{AttendantCommand, AttendantRequest};
use mcclwrap::ready::Signal;
use regex::Regex;
use tokio::sync::broadcast::TryRecvError;

struct Flag(Rc<Cell<u32>>);

impl Signal for Flag {
    fn ready(&self) -> Option<()> {
        self.0.set(self.0.get() + 1);
        if self.0.get() > 1 {
            None
        } else {
            Some(())
        }
    }
}

fn regex(pattern: &str) -> Regex {
    Regex::new(pattern).unwrap()
}

#[test]
fn only_lines_are_taken() {
    assert_eq!(FilterOutput::Line("hi".to_string()).take_line(), Some("hi".to_string()));
    assert_eq!(FilterOutput::Expired.take_line(), None);
    assert_eq!(FilterOutput::Line("hi".to_string()).clone().take_line(), Some("hi".to_string()));
}

#[test]
fn defaults_of_a_filter() {
    let (filter, _rx) = OutputFilter::new(regex("a")).build();
    assert_eq!(filter.count, None);
    assert_eq!(filter.fail, None);
    assert!(filter.ignore_chat);
    assert_eq!(filter.regex.as_str(), "a");
}

#[test]
fn a_filter_passes_on_what_matches() {
    let (mut filter, mut rx) = OutputFilter::new(regex("^tps")).build();
    assert!(filter.check("tps 20", false));
    assert!(filter.check("other", false));
    assert!(filter.check("tps 19", false));
    assert_eq!(rx.try_recv().unwrap().take_line(), Some("tps 20".to_string()));
    assert_eq!(rx.try_recv().unwrap().take_line(), Some("tps 19".to_string()));
    assert!(matches!(rx.try_recv(), Err(TryRecvError::Empty)));
}

#[test]
fn chat_is_skipped_if_asked() {
    let (mut filter, mut rx) = OutputFilter::new(regex("hi")).build();
    assert!(filter.check("<Steve> hi", true));
    assert!(matches!(rx.try_recv(), Err(TryRecvError::Empty)));
    let (mut filter, mut rx) = OutputFilter::new(regex("hi")).ignore_chat(false).build();
    assert!(filter.check("<Steve> hi", true));
    assert_eq!(rx.try_recv().unwrap().take_line(), Some("<Steve> hi".to_string()));
}

#[test]
fn a_filter_expires_after_its_count() {
    let (mut filter, mut rx) = OutputFilter::new(regex("a")).count(Some(2)).build();
    assert!(filter.check("a1", false));
    assert!(filter.check("b", false));
    assert_eq!(filter.count, Some(1));
    assert!(!filter.check("a2", false));
    assert_eq!(rx.try_recv().unwrap().take_line(), Some("a1".to_string()));
    assert_eq!(rx.try_recv().unwrap().take_line(), Some("a2".to_string()));
    assert!(matches!(rx.try_recv(), Ok(FilterOutput::Expired)));
}

#[test]
fn a_filter_expires_after_its_failures() {
    let (mut filter, mut rx) = OutputFilter::new(regex("a")).fail(Some(2)).build();
    assert!(filter.check("b", false));
    assert_eq!(filter.fail, Some(1));
    assert!(filter.check("a", false));
    assert!(!filter.check("c", false));
    assert_eq!(rx.try_recv().unwrap().take_line(), Some("a".to_string()));
    assert!(matches!(rx.try_recv(), Ok(FilterOutput::Expired)));
}

#[test]
fn a_filter_is_dropped_without_listeners() {
    let (mut filter, rx) = OutputFilter::new(regex("a")).count(Some(5)).build();
    drop(rx);
    assert!(filter.check("b", false));
    assert!(!filter.check("a", false));
    assert_eq!(filter.count, Some(5));
}

#[test]
fn a_slow_client_loses_the_oldest_lines() {
    let (mut filter, mut rx) = OutputFilter::new(regex("")).capacity(3).build();
    for i in 0..6 {
        assert!(filter.check(&format!("{}", i), false));
    }
    assert!(matches!(rx.try_recv(), Err(TryRecvError::Lagged(2))));
    assert_eq!(rx.try_recv().unwrap().take_line(), Some("2".to_string()));
}

#[test]
fn verdicts_on_a_message() {
    let (mut filter, _rx) = OutputFilter::new(regex("a")).fail(Some(1)).count(Some(1)).build();
    assert_eq!(filter.judge(true, true), Verdict::Keep);
    assert_eq!(filter.judge(true, false), Verdict::SendLine);
    assert_eq!(filter.judge(false, false), Verdict::Expire);
    assert_eq!(filter.fail, Some(0));
    assert_eq!(filter.count_match(false), Verdict::Drop);
    assert_eq!(filter.count, Some(1));
    assert_eq!(filter.count_match(true), Verdict::Expire);
    assert_eq!(filter.count, Some(0));
    let (mut filter, _rx) = OutputFilter::new(regex("a")).build();
    assert_eq!(filter.judge(false, false), Verdict::Keep);
    assert_eq!(filter.count_match(true), Verdict::Keep);
}

#[test]
fn input_filters_know_their_attendant() {
    let rung = Rc::new(Cell::new(0));
    let filter = InputFilter {
        regex: regex("^save-"),
        expired: Flag(rung.clone()),
        client_id: 3,
        key: 1,
    };
    assert!(filter.is_match("save-all"));
    assert!(!filter.is_match("say save-all"));
    let request = |client_id: u32| AttendantRequest {
        done: Flag(Rc::new(Cell::new(0))),
        command: AttendantCommand::SendCommand("list".to_string()),
        client_id,
    };
    assert!(filter.from_same_attendant(&request(3)));
    assert!(!filter.from_same_attendant(&request(4)));
    assert_eq!(filter.signal_expiration(), Some(()));
    assert_eq!(filter.signal_expiration(), None);
    assert_eq!(rung.get(), 2);
}

#[test]
fn shared_input_filters_are_counted_and_compared() {
    let new = |key: u64| {
        OurInputFilter(Arc::new(InputFilter {
            regex: regex("a"),
            expired: Flag(Rc::new(Cell::new(0))),
            client_id: 0,
            key,
        }))
    };
    let filter = new(1);
    assert_eq!(filter.strong_count(), 1);
    let other = filter.clone();
    assert_eq!(filter.strong_count(), 2);
    assert!(filter == other);
    assert!(filter != new(2));
    drop(other);
    assert_eq!(filter.strong_count(), 1);
}

#[test]
fn over_many_messages_the_limits_decide_when_it_ends() {
    let messages = ["ab", "x", "ac", "y", "ad", "z"];
    let (mut filter, mut rx) = OutputFilter::new(regex("^a")).count(Some(2)).build();
    let kept: Vec<bool> = messages[..3].iter().map(|m| filter.check(m, false)).collect();
    assert_eq!(kept, vec![true, true, false]);
    assert_eq!(filter.count, Some(0));
    assert_eq!(rx.try_recv().unwrap().take_line(), Some("ab".to_string()));
    assert_eq!(rx.try_recv().unwrap().take_line(), Some("ac".to_string()));
    assert!(matches!(rx.try_recv(), Ok(FilterOutput::Expired)));
    assert!(matches!(rx.try_recv(), Err(TryRecvError::Empty)));

    let (mut filter, mut rx) = OutputFilter::new(regex("^a")).fail(Some(3)).build();
    let kept: Vec<bool> = messages.iter().map(|m| filter.check(m, false)).collect();
    assert_eq!(kept, vec![true, true, true, true, true, false]);
    for line in ["ab", "ac", "ad"].iter() {
        assert_eq!(rx.try_recv().unwrap().take_line(), Some(line.to_string()));
    }
    assert!(matches!(rx.try_recv(), Ok(FilterOutput::Expired)));
    assert!(matches!(rx.try_recv(), Err(TryRecvError::Empty)));
}
