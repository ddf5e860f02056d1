use mcclwrap::command::{
    filter_start_args, get_line_args, guard_begin_args, guard_renew_args, is_filter_id,
    number_up_to, parse_request, FilterOptions,
};
use regex::Regex;

/// All texts of up to `n` parts.
fn texts(alphabet: &[&str], n: usize) -> Vec<String> {
    let mut all = vec![String::new()];
    let mut last = vec![String::new()];
    for _ in 0..n {
        let mut longer = Vec::new();
        for text in &last {
            for part in alphabet {
                longer.push(format!("{}{}", text, part));
            }
        }
        all.extend(longer.iter().cloned());
        last = longer;
    }
    all
}

#[test]
fn requests_are_taken_apart() {
    let request = parse_request("[12] slash say  hi ").unwrap();
    assert_eq!(request.header, "[12] slash");
    assert_eq!(request.command, "slash");
    assert_eq!(request.args, "say  hi ");
    let request = parse_request("cya").unwrap();
    assert_eq!(request.header, "cya");
    assert_eq!(request.command, "cya");
    assert_eq!(request.args, "");
    let request = parse_request("ready ").unwrap();
    assert_eq!(request.header, "ready");
    assert_eq!(request.args, "");
}

#[test]
fn requests_follow_the_grammar() {
    let regex = Regex::new(r"^((?:\[[0-9]{1,9}\] )?([^ \[]+))(?: (.*))?$").unwrap();
    let mut lines = texts(&["[", "1", "12345678", "]", " ", "a", "\n"], 6);
    lines.push("[1234567890] ready".to_string());
    lines.push("[123456789] ready x".to_string());
    for line in &lines {
        let parsed = parse_request(line);
        match regex.captures(line) {
            Some(cap) => {
                let parsed = parsed.unwrap();
                assert_eq!(parsed.header, &cap[1], "{:?}", line);
                assert_eq!(parsed.command, &cap[2], "{:?}", line);
                assert_eq!(parsed.args, cap.get(3).map(|v| v.as_str()).unwrap_or(""), "{:?}", line);
            }
            None => assert!(parsed.is_none(), "{:?}", line),
        }
    }
}

#[test]
fn get_line_arguments_follow_the_grammar() {
    let regex = Regex::new(r##"^r#"(.*?)"# (.+)$"##).unwrap();
    for text in &texts(&["r", "#", "\"", " ", "x", "\n", "r#\"", "\"# "], 5) {
        let expected = regex
            .captures(text)
            .map(|cap| (cap[1].to_string(), cap[2].to_string()));
        let parsed = get_line_args(text).map(|(a, b)| (a.to_string(), b.to_string()));
        assert_eq!(parsed, expected, "{:?}", text);
    }
    assert_eq!(
        get_line_args("r#\"^There are .*? players online\"# list"),
        Some(("^There are .*? players online", "list"))
    );
}

#[test]
fn guard_begin_arguments_follow_the_grammar() {
    let regex = Regex::new(r##"^r#"(.*?)"#(?: ([0-9]+)s)?$"##).unwrap();
    for text in &texts(&["r#\"", "\"#", " ", "5", "s", "\n", "\"", "\"# 5s"], 5) {
        let expected = regex
            .captures(text)
            .map(|cap| (cap[1].to_string(), cap.get(2).map(|d| d.as_str().to_string())));
        let parsed =
            guard_begin_args(text).map(|(a, b)| (a.to_string(), b.map(|d| d.to_string())));
        assert_eq!(parsed, expected, "{:?}", text);
    }
    assert_eq!(guard_begin_args("r#\"^save-\"#"), Some(("^save-", None)));
    assert_eq!(guard_begin_args("r#\"^save-\"# 50s"), Some(("^save-", Some("50"))));
}

#[test]
fn ids_and_renewals_follow_the_grammar() {
    let renew = Regex::new(r"^([0-9]+)(?: ([0-9]+)s)?$").unwrap();
    let id = Regex::new(r"^([0-9]+)$").unwrap();
    for text in &texts(&["0", "12", " ", "s", "x"], 6) {
        let expected = renew
            .captures(text)
            .map(|cap| (cap[1].to_string(), cap.get(2).map(|d| d.as_str().to_string())));
        let parsed =
            guard_renew_args(text).map(|(a, b)| (a.to_string(), b.map(|d| d.to_string())));
        assert_eq!(parsed, expected, "{:?}", text);
        assert_eq!(is_filter_id(text), id.is_match(text), "{:?}", text);
    }
}

#[test]
fn filter_start_arguments_follow_the_grammar() {
    let regex = Regex::new(
        r##"^r#"(.*?)"#(?: (?:(?P<chat>ignore-chat)|count=(?P<count>[0-9]+)|fail=(?P<fail>[0-9]+)))*$"##,
    )
    .unwrap();
    let alphabet = ["r#\"", "\"#", " ", "ignore-chat", " count=1", " fail=", "2147483648", "\n", "7"];
    for text in &texts(&alphabet, 5) {
        let expected = regex.captures(text).map(|cap| {
            let options = FilterOptions {
                ignore_chat: cap.name("chat").is_some(),
                count: cap.name("count").and_then(|m| m.as_str().parse().ok()),
                fail: cap.name("fail").and_then(|m| m.as_str().parse().ok()),
            };
            (cap[1].to_string(), options)
        });
        let parsed = filter_start_args(text).map(|(a, b)| (a.to_string(), b));
        assert_eq!(parsed, expected, "{:?}", text);
    }
}

#[test]
fn the_last_option_of_a_kind_counts() {
    assert_eq!(
        filter_start_args("r#\"tps\"# ignore-chat count=10 fail=3 count=2147483647"),
        Some((
            "tps",
            FilterOptions { ignore_chat: true, count: Some(2147483647), fail: Some(3) }
        ))
    );
    assert_eq!(
        filter_start_args("r#\"tps\"# count=1 count=2147483648"),
        Some(("tps", FilterOptions { ignore_chat: false, count: None, fail: None }))
    );
    assert_eq!(filter_start_args("r#\"tps\"# count="), None);
    assert_eq!(filter_start_args("r#\"tps\"#  count=1"), None);
}

#[test]
fn numbers_stop_at_the_limit() {
    assert_eq!(number_up_to("0042", 100), Some(42));
    assert_eq!(number_up_to("4294967295", u32::MAX as u64), Some(4294967295));
    assert_eq!(number_up_to("4294967296", u32::MAX as u64), None);
    assert_eq!(number_up_to("18446744073709551616", u64::MAX), None);
}
