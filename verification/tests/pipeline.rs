use std::collections::BTreeMap;
use std::io::Read;
use std::sync::{Arc, Mutex};

use serde_json::{de, value};
use structured_logger::codec::encode_line;
use structured_logger::level::{Level, LevelFilter};
use structured_logger::record::{LogEvent, Record, Value};
use structured_logger::{unix_ms, Builder, WriteError, Writer, WriterBox};

struct Capture(Arc<Mutex<Vec<String>>>);

impl Writer for Capture {
    fn write_log(&self, value: &Record) -> Result<(), WriteError> {
        let line = encode_line(value);
        self.0.lock().unwrap().push(line);
        Ok(())
    }
}

struct FailWriter;

impl Writer for FailWriter {
    fn write_log(&self, _value: &Record) -> Result<(), WriteError> {
        Err(WriteError {
            message: "boom".to_string(),
        })
    }
}

fn event(target: &str, level: Level, message: &str, kvs: Vec<(String, Value)>) -> LogEvent {
    LogEvent {
        target: target.to_string(),
        level,
        message: message.to_string(),
        kvs,
        module: None,
        file: None,
        line: None,
    }
}

fn parse(line: &str) -> BTreeMap<String, value::Value> {
    de::from_str::<BTreeMap<String, value::Value>>(line).unwrap()
}

#[test]
fn end_to_end_scenario() {
    let lines = Arc::new(Mutex::new(Vec::new()));
    let logger = Builder::with_level("INFO")
        .with_target_writer("buffer", WriterBox::wrap(Box::new(Capture(lines.clone()))))
        .build();

    let before = unix_ms();
    logger.log(&event(
        "buffer",
        Level::Info,
        "hello world",
        vec![
            ("method".to_string(), Value::Text("GET".to_string())),
            ("path".to_string(), Value::Text("/hello".to_string())),
            ("status".to_string(), Value::Unsigned(200)),
        ],
    ));
    let after = unix_ms();

    let lines = lines.lock().unwrap();
    assert_eq!(1, lines.len());
    let line = &lines[0];
    assert_eq!('\n', line.chars().last().unwrap());
    assert_eq!(1, line.chars().filter(|c| *c == '\n').count());

    let res = parse(line);
    assert_eq!("INFO", res.get("level").unwrap());
    assert_eq!("buffer", res.get("target").unwrap());
    assert_eq!("hello world", res.get("message").unwrap());
    assert_eq!("GET", res.get("method").unwrap());
    assert_eq!("/hello", res.get("path").unwrap());
    assert_eq!(200_u64, res.get("status").unwrap().as_u64().unwrap());
    let ts = res.get("timestamp").unwrap().as_u64().unwrap();
    assert!(before <= ts && ts <= after);
}

#[test]
fn filter_blocks_less_severe_events() {
    let lines = Arc::new(Mutex::new(Vec::new()));
    let logger = Builder::with_level("INFO")
        .with_target_writer("*", WriterBox::wrap(Box::new(Capture(lines.clone()))))
        .build();

    logger.log(&event("t", Level::Debug, "dropped", vec![]));
    logger.log(&event("t", Level::Trace, "dropped", vec![]));
    assert_eq!(0, lines.lock().unwrap().len());

    logger.log(&event("t", Level::Info, "kept", vec![]));
    logger.log(&event("t", Level::Warn, "kept", vec![]));
    logger.log(&event("t", Level::Error, "kept", vec![]));
    assert_eq!(3, lines.lock().unwrap().len());
}

#[test]
fn filter_off_blocks_everything() {
    let lines = Arc::new(Mutex::new(Vec::new()));
    let logger = Builder::with_level("OFF")
        .with_target_writer("*", WriterBox::wrap(Box::new(Capture(lines.clone()))))
        .build();
    logger.log(&event("t", Level::Error, "dropped", vec![]));
    assert_eq!(0, lines.lock().unwrap().len());
}

#[test]
fn first_match_routing_wins() {
    let first = Arc::new(Mutex::new(Vec::new()));
    let second = Arc::new(Mutex::new(Vec::new()));
    let fallback = Arc::new(Mutex::new(Vec::new()));
    let logger = Builder::with_level("INFO")
        .with_default_writer(WriterBox::wrap(Box::new(Capture(fallback.clone()))))
        .with_target_writer("api*", WriterBox::wrap(Box::new(Capture(first.clone()))))
        .with_target_writer("api", WriterBox::wrap(Box::new(Capture(second.clone()))))
        .build();

    logger.log(&event("api", Level::Info, "m", vec![]));
    assert_eq!(1, first.lock().unwrap().len());
    assert_eq!(0, second.lock().unwrap().len());
    assert_eq!(0, fallback.lock().unwrap().len());

    logger.log(&event("other", Level::Info, "m", vec![]));
    assert_eq!(1, fallback.lock().unwrap().len());
}

#[test]
fn standard_fields_overwrite_caller_fields() {
    let lines = Arc::new(Mutex::new(Vec::new()));
    let logger = Builder::with_level("INFO")
        .with_target_writer("*", WriterBox::wrap(Box::new(Capture(lines.clone()))))
        .build();

    logger.log(&event(
        "t",
        Level::Info,
        "real",
        vec![
            ("level".to_string(), Value::Text("FAKE".to_string())),
            ("target".to_string(), Value::Text("elsewhere".to_string())),
            ("message".to_string(), Value::Text("fake".to_string())),
            ("timestamp".to_string(), Value::Unsigned(1)),
        ],
    ));

    let lines = lines.lock().unwrap();
    let res = parse(&lines[0]);
    assert_eq!("INFO", res.get("level").unwrap());
    assert_eq!("t", res.get("target").unwrap());
    assert_eq!("real", res.get("message").unwrap());
    assert!(res.get("timestamp").unwrap().as_u64().unwrap() > 1);
}

#[test]
fn message_field_renamed() {
    let lines = Arc::new(Mutex::new(Vec::new()));
    let logger = Builder::with_level("INFO")
        .with_target_writer("*", WriterBox::wrap(Box::new(Capture(lines.clone()))))
        .with_msg_field()
        .build();
    logger.log(&event("t", Level::Info, "hi", vec![]));
    let lines = lines.lock().unwrap();
    let res = parse(&lines[0]);
    assert_eq!("hi", res.get("msg").unwrap());
    assert!(res.get("message").is_none());
}

#[test]
fn source_location_on_warn_and_error_only() {
    let lines = Arc::new(Mutex::new(Vec::new()));
    let logger = Builder::with_level("TRACE")
        .with_target_writer("*", WriterBox::wrap(Box::new(Capture(lines.clone()))))
        .build();
    let mut e = event("t", Level::Warn, "w", vec![]);
    e.module = Some("m".to_string());
    e.file = Some("f.rs".to_string());
    e.line = Some(42);
    logger.log(&e);
    let mut e2 = event("t", Level::Info, "i", vec![]);
    e2.module = Some("m".to_string());
    e2.file = Some("f.rs".to_string());
    e2.line = Some(42);
    logger.log(&e2);

    let lines = lines.lock().unwrap();
    let warn = parse(&lines[0]);
    assert_eq!("m", warn.get("module").unwrap());
    assert_eq!("f.rs", warn.get("file").unwrap());
    assert_eq!(42_u64, warn.get("line").unwrap().as_u64().unwrap());
    let info = parse(&lines[1]);
    assert!(info.get("module").is_none());
    assert!(info.get("file").is_none());
    assert!(info.get("line").is_none());
}

#[test]
fn encode_line_exact_values() {
    let mut rec = Record::new();
    rec.insert("s".to_string(), Value::Text("a\"b\\c\nd".to_string()));
    rec.insert("neg".to_string(), Value::Signed(-5));
    rec.insert("pos".to_string(), Value::Unsigned(7));
    rec.insert("yes".to_string(), Value::Bool(true));
    rec.insert("no".to_string(), Value::Bool(false));
    rec.insert("nil".to_string(), Value::Null);
    rec.insert("ctl".to_string(), Value::Text("\u{1}".to_string()));
    assert_eq!(
        encode_line(&rec),
        "{\"s\":\"a\\\"b\\\\c\\nd\",\"neg\":-5,\"pos\":7,\"yes\":true,\"no\":false,\"nil\":null,\"ctl\":\"\\u0001\"}\n"
    );
}

#[test]
fn record_insert_overwrites_in_place() {
    let mut rec = Record::new();
    rec.insert("a".to_string(), Value::Unsigned(1));
    rec.insert("b".to_string(), Value::Unsigned(2));
    rec.insert("a".to_string(), Value::Unsigned(3));
    assert_eq!(encode_line(&rec), "{\"a\":3,\"b\":2}\n");
    match rec.get("a") {
        Some(Value::Unsigned(n)) => assert_eq!(3, *n),
        _ => panic!("expected an unsigned value at \"a\""),
    }
    assert!(rec.get("c").is_none());
}

#[test]
fn line_round_trip_decodes_all_fields() {
    let lines = Arc::new(Mutex::new(Vec::new()));
    let logger = Builder::with_level("TRACE")
        .with_target_writer("*", WriterBox::wrap(Box::new(Capture(lines.clone()))))
        .build();
    logger.log(&event(
        "round",
        Level::Error,
        "m\n\"x\"",
        vec![
            ("i".to_string(), Value::Signed(-42)),
            ("u".to_string(), Value::Unsigned(9007199254740993)),
            ("b".to_string(), Value::Bool(false)),
            ("n".to_string(), Value::Null),
        ],
    ));
    let lines = lines.lock().unwrap();
    let line = &lines[0];
    assert!(line.as_bytes().ends_with(b"\n"));
    assert_eq!(1, line.bytes().filter(|b| *b == b'\n').count());
    let res = parse(line);
    let expected: Vec<&str> = vec!["i", "u", "b", "n", "target", "message", "level", "timestamp"];
    assert_eq!(expected.len(), res.len());
    for key in expected {
        assert!(res.contains_key(key));
    }
    assert_eq!(-42_i64, res.get("i").unwrap().as_i64().unwrap());
    assert_eq!(9007199254740993_u64, res.get("u").unwrap().as_u64().unwrap());
    assert_eq!(false, res.get("b").unwrap().as_bool().unwrap());
    assert!(res.get("n").unwrap().is_null());
    assert_eq!("m\n\"x\"", res.get("message").unwrap());
    assert_eq!("ERROR", res.get("level").unwrap());
}

#[test]
fn writer_failure_goes_to_fallback() {
    let logger = Builder::with_level("INFO")
        .with_target_writer("*", WriterBox::wrap(Box::new(FailWriter)))
        .build();
    let buf = gag::BufferRedirect::stderr().unwrap();
    logger.log(&event("t", Level::Info, "m", vec![]));
    let mut msg = String::new();
    buf.into_inner().read_to_string(&mut msg).unwrap();
    let res = parse(&msg);
    assert_eq!("ERROR", res.get("level").unwrap());
    assert_eq!("Logger failed to log: boom", res.get("message").unwrap());
    assert_eq!("structured_logger", res.get("target").unwrap());
}

#[test]
fn level_names_and_parsing() {
    assert_eq!("ERROR", Level::Error.as_str());
    assert_eq!("WARN", Level::Warn.as_str());
    assert_eq!("INFO", Level::Info.as_str());
    assert_eq!("DEBUG", Level::Debug.as_str());
    assert_eq!("TRACE", Level::Trace.as_str());
    assert_eq!(
        Some(LevelFilter::Error),
        structured_logger::level::parse_level_filter("error")
    );
    assert_eq!(
        Some(LevelFilter::Off),
        structured_logger::level::parse_level_filter("OFF")
    );
    assert_eq!(
        Some(LevelFilter::Debug),
        structured_logger::level::parse_level_filter("Debug")
    );
    assert_eq!(None, structured_logger::level::parse_level_filter("bogus"));
    assert_eq!(LevelFilter::Warn, Builder::with_level("warn").filter);
    assert_eq!(LevelFilter::Info, Builder::with_level("nonsense").filter);
}

#[test]
fn concurrent_writes_all_arrive() {
    let lines = Arc::new(Mutex::new(Vec::new()));
    let logger = Arc::new(
        Builder::with_level("INFO")
            .with_target_writer("*", WriterBox::wrap(Box::new(Capture(lines.clone()))))
            .build(),
    );

    let runtime = tokio::runtime::Builder::new_multi_thread()
        .worker_threads(3)
        .build()
        .unwrap();
    runtime.block_on(async {
        let mut handles = Vec::new();
        for i in 0..200 {
            let logger = logger.clone();
            handles.push(tokio::spawn(async move {
                let msg = format!("hello {}", i);
                logger.log(&event("t", Level::Info, &msg, vec![]));
            }));
        }
        for h in handles {
            h.await.unwrap();
        }
    });

    let lines = lines.lock().unwrap();
    assert_eq!(200, lines.len());
    let mut seen = [false; 200];
    for line in lines.iter() {
        let res = parse(line);
        let msg = res.get("message").unwrap().as_str().unwrap().to_string();
        let idx: usize = msg.strip_prefix("hello ").unwrap().parse().unwrap();
        seen[idx] = true;
    }
    for v in &seen {
        assert!(*v);
    }
}

#[test]
fn msg_field_choice_survives_later_registration() {
    let lines = Arc::new(Mutex::new(Vec::new()));
    let other = Arc::new(Mutex::new(Vec::new()));
    let logger = Builder::with_level("INFO")
        .with_msg_field()
        .with_target_writer("t", WriterBox::wrap(Box::new(Capture(lines.clone()))))
        .with_default_writer(WriterBox::wrap(Box::new(Capture(other.clone()))))
        .build();
    logger.log(&event("t", Level::Info, "hi", vec![]));
    let lines = lines.lock().unwrap();
    let res = parse(&lines[0]);
    assert_eq!("hi", res.get("msg").unwrap());
    assert!(res.get("message").is_none());
}

#[test]
fn default_writer_replacement_takes_effect() {
    let lines = Arc::new(Mutex::new(Vec::new()));
    let logger = Builder::with_level("INFO")
        .with_default_writer(WriterBox::wrap(Box::new(Capture(lines.clone()))))
        .build();
    logger.log(&event("anything", Level::Info, "m", vec![]));
    assert_eq!(1, lines.lock().unwrap().len());
}

#[test]
fn panic_event_shape() {
    let e = structured_logger::record::panic_event(
        "main",
        "panicked at 'boom'",
        "frame 0\nframe 1".to_string(),
        Some("src/x.rs".to_string()),
        Some(7),
    );
    assert_eq!("panic", e.target);
    assert!(matches!(e.level, Level::Error));
    assert_eq!("thread 'main' panicked at 'boom'", e.message);
    assert_eq!(2, e.kvs.len());
    assert_eq!("backtrace", e.kvs[0].0);
    match &e.kvs[0].1 {
        Value::Text(s) => assert_eq!("frame 0\nframe 1", s),
        _ => panic!("expected text backtrace"),
    }
    assert_eq!("thread_name", e.kvs[1].0);
    match &e.kvs[1].1 {
        Value::Text(s) => assert_eq!("main", s),
        _ => panic!("expected text thread name"),
    }
    assert!(e.module.is_none());
    assert_eq!(Some("src/x.rs".to_string()), e.file);
    assert_eq!(Some(7), e.line);
}
