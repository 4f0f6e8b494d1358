use std::collections::BTreeMap;
use std::io::Read;

use serde_json::{de, value};
use structured_logger::{fallback_line, log_failure, unix_ms};

#[test]
fn unix_ms_works() {
    let now = unix_ms();
    assert!(now > 1670123456789_u64);
}

#[test]
fn log_failure_works() {
    let cases: Vec<&str> = vec!["", "\"", "hello", "\"hello >", "hello\n", "hello\r"];
    for case in cases {
        let buf = gag::BufferRedirect::stderr().unwrap();
        log_failure(case);
        let mut msg: String = String::new();
        buf.into_inner().read_to_string(&mut msg).unwrap();
        let msg = msg.as_str();
        assert_eq!('\n', msg.chars().last().unwrap());

        let res = de::from_str::<BTreeMap<String, value::Value>>(msg);
        assert!(res.is_ok());
        let res = res.unwrap();
        assert_eq!("ERROR", res.get("level").unwrap());
        assert_eq!(case, res.get("message").unwrap());
        assert_eq!("structured_logger", res.get("target").unwrap());
        assert!(unix_ms() - 999 <= res.get("timestamp").unwrap().as_u64().unwrap());
    }
}

#[test]
fn fallback_line_exact() {
    assert_eq!(
        fallback_line("x", 123),
        "{\"level\":\"ERROR\",\"message\":\"x\",\"target\":\"structured_logger\",\"timestamp\":123}\n"
    );
    assert_eq!(
        fallback_line("a\"b\\c\nd", 7),
        "{\"level\":\"ERROR\",\"message\":\"a\\\"b\\\\c\\nd\",\"target\":\"structured_logger\",\"timestamp\":7}\n"
    );
}

#[test]
fn fallback_line_single_newline() {
    let cases: Vec<&str> = vec!["", "\"", "hello\nworld\n", "\u{1}\u{1f}", "caf\u{e9}"];
    for case in cases {
        let line = fallback_line(case, unix_ms());
        assert_eq!('\n', line.chars().last().unwrap());
        assert_eq!(1, line.chars().filter(|c| *c == '\n').count());
        let res = de::from_str::<BTreeMap<String, value::Value>>(&line).unwrap();
        assert_eq!(case, res.get("message").unwrap());
    }
}
