use mcclwrap::console_line::{
    is_chat, is_server_closed, is_server_ready, remove_timestamp, strip_prompt_escapes,
};
use regex::Regex;

const LINES: &[&str] = &[
    "",
    "[12:00:00 INFO]: Done (3.141s)! For help, type \"help\"",
    "> .[12:00:00 INFO]: hello",
    ">....\r\x1B[K[12:00:00]: x",
    "\x1B[?1h\x1B=\x1B[?2004h>text",
    ">",
    "> hello",
    "\x1B[?1hx",
    "\x1B[?1",
    "\r\r\rx\r",
    "\x1B[32m[12:00:00 INFO]: green",
    "\x1B[32m\x1B[1m[12:00:00 INFO]: bold",
    "\x1B[32mm[a]: b]: c",
    "\x1B[32m x [a]: b",
    "\x1B[32m xm[a]: b",
    "\x1B[m]: [a]: b",
    "\x1B[m",
    "\x1B[",
    "[a] b]: c]: d",
    "[]: ",
    "[]:",
    "[a\n]: b",
    "x[a]: b",
    "]: ",
    "\x1B[\nm[a]: b",
    "<Steve> hi",
    "<ab> hi",
    "<abc> hi",
    "<abc",
    "<a-b_c> hi",
    "<abcdefghijklmnopqrstuvwxyz012345> hi",
    "<abcdefghijklmnopqrstuvwxyz0123456> hi",
    " <Steve> hi",
    "Done (1.2s)!",
    "Done ()!",
    "Done (1",
    "Done (1)",
    "Done (1(2)!",
    "Done (1)2)! and more",
    "Done (1\n)!",
    " Done (1)!",
    "Done (\u{e9})!",
    "Closing Server",
    "Closing Server\n",
    "Closing Server ",
];

#[test]
fn prompts_are_stripped_as_by_the_expression() {
    let regex = Regex::new(
        r"^(?:>\.+|\r|\x1B\[K|\x1B\[\?1h|\x1B\[\?2004h|\x1B=)+",
    )
    .unwrap();
    for line in LINES {
        let expected = match regex.find(line) {
            Some(found) => &line[found.end()..],
            None => line,
        };
        assert_eq!(strip_prompt_escapes(line), expected, "{:?}", line);
    }
}

#[test]
fn timestamps_are_removed_as_by_the_expression() {
    let regex = Regex::new(r"^((?:\x1B\[.*?m)*)\[.*?\]: ").unwrap();
    for line in LINES {
        let replaced = regex.replace(line, "$1");
        let expected = if replaced == *line { None } else { Some(replaced.into_owned()) };
        assert_eq!(remove_timestamp(line), expected, "{:?}", line);
    }
}

#[test]
fn chat_and_status_are_told_apart_as_by_the_expressions() {
    let chat = Regex::new(r"^<[a-zA-Z0-9_]{3,32}>").unwrap();
    let ready = Regex::new(r"^Done \([^(]+\)!").unwrap();
    let closed = Regex::new(r"^Closing Server$").unwrap();
    for line in LINES {
        assert_eq!(is_chat(line), chat.is_match(line), "{:?}", line);
        assert_eq!(is_server_ready(line), ready.is_match(line), "{:?}", line);
        assert_eq!(is_server_closed(line), closed.is_match(line), "{:?}", line);
    }
}

#[test]
fn small_lines_are_all_treated_as_by_the_expressions() {
    let prompts = Regex::new(r"^(?:>\.+|\r|\x1B\[K|\x1B\[\?1h|\x1B\[\?2004h|\x1B=)+").unwrap();
    let timestamp = Regex::new(r"^((?:\x1B\[.*?m)*)\[.*?\]: ").unwrap();
    let alphabet = ["[", "]: ", "\x1B[", "m", "\n", "x", ">.", "\r"];
    let mut lines = vec![String::new()];
    for _ in 0..5 {
        let mut longer = Vec::new();
        for line in &lines {
            for part in alphabet.iter() {
                longer.push(format!("{}{}", line, part));
            }
        }
        for line in &longer {
            let stripped = match prompts.find(line) {
                Some(found) => &line[found.end()..],
                None => line.as_str(),
            };
            assert_eq!(strip_prompt_escapes(line), stripped, "{:?}", line);
            let replaced = timestamp.replace(line, "$1");
            let message = if replaced == *line { None } else { Some(replaced.into_owned()) };
            assert_eq!(remove_timestamp(line), message, "{:?}", line);
        }
        lines = longer;
    }
}

#[test]
fn a_coloured_line_keeps_its_colour() {
    assert_eq!(
        remove_timestamp("\x1B[32m[12:00:00 INFO]: green"),
        Some("\x1B[32mgreen".to_string())
    );
    assert_eq!(remove_timestamp("no timestamp"), None);
}

#[test]
fn nothing_is_left_to_strip() {
    for line in LINES {
        let once = strip_prompt_escapes(line);
        assert_eq!(strip_prompt_escapes(once), once);
    }
}

#[test]
fn what_a_player_says_is_no_status() {
    for line in ["<Steve> Done (1.0s)!", "<Steve>Closing Server"].iter() {
        assert!(is_chat(line));
        assert!(!is_server_ready(line));
        assert!(!is_server_closed(line));
    }
}
