//! A structured-logging dispatch core.
//!
//! Events carry a target name, a severity level, a message and key/value
//! pairs. A [`Logger`] filters events by level, enriches them into ordered
//! records, routes each record by its target through an ordered table of
//! pattern/writer pairs, and hands it to a [`Writer`], which frames it as one
//! self-describing line. A [`Builder`] assembles the logger; [`log_failure`]
//! is the writer-independent fallback that reports a writer's failure on the
//! standard error stream.
use vstd::prelude::*;

use std::io::Write as IoWrite;

pub mod codec;
pub mod json;
pub mod level;
pub mod record;
pub mod target;
pub mod text;

use codec::enc_line;
use level::{Level, LevelFilter};
use record::{build_record, LogEvent, Record, Value, ValueV};
use target::{pattern_matches, InnerTarget, Target};
use text::str_owned;

verus! {

/// The error a writer reports when it cannot produce a record.
pub struct WriteError {
    pub message: String,
}

/// How a record is delivered to one output destination. Implement this for a
/// custom format or destination; the logger only ever calls `write_log`.
pub trait Writer: Send + Sync {
    /// Delivers one record to this writer's destination.
    fn write_log(&self, value: &Record) -> Result<(), WriteError>;
}

/// One boxed writer, as held in a routing table.
pub struct WriterBox(pub Box<dyn Writer>);

impl WriterBox {
    /// Boxes a writer for the routing table.
    pub fn wrap(w: Box<dyn Writer>) -> WriterBox {
        WriterBox(w)
    }
}

/// Relies on std::time::SystemTime::now and duration_since: the clock's
/// milliseconds since the Unix epoch, or 0 if the clock reads before it.
#[verifier::external_body]
pub fn unix_ms() -> u64 {
    match std::time::SystemTime::now().duration_since(std::time::UNIX_EPOCH) {
        Ok(d) => d.as_millis() as u64,
        Err(_) => 0,
    }
}

/// The fixed field set of a fallback failure line.
pub open spec fn fallback_fields(m: Seq<char>, ts: u64) -> Seq<(Seq<char>, ValueV)> {
    seq![
        ("level"@, ValueV::Text("ERROR"@)),
        ("message"@, ValueV::Text(m)),
        ("target"@, ValueV::Text("structured_logger"@)),
        ("timestamp"@, ValueV::Int(ts as int)),
    ]
}

/// Builds the one-line failure report for `msg`, stamped `timestamp`.
pub fn fallback_line(msg: &str, timestamp: u64) -> (r: String)
    ensures
        r@ == enc_line(fallback_fields(msg@, timestamp)),
{
    let mut rec = Record::new();
    rec.insert(str_owned("level"), Value::Text(str_owned("ERROR")));
    rec.insert(str_owned("message"), Value::Text(str_owned(msg)));
    rec.insert(str_owned("target"), Value::Text(str_owned("structured_logger")));
    rec.insert(str_owned("timestamp"), Value::Unsigned(timestamp));
    proof {
        reveal_strlit("level");
        reveal_strlit("message");
        reveal_strlit("target");
        reveal_strlit("timestamp");
        assert("level"@.len() == 5 && "message"@.len() == 7 && "target"@.len() == 6
            && "timestamp"@.len() == 9);
        let s0 = Seq::<(Seq<char>, ValueV)>::empty();
        let s1 = record::spec_insert(s0, "level"@, ValueV::Text("ERROR"@));
        assert(s1 =~= seq![("level"@, ValueV::Text("ERROR"@))]);
        record::lemma_find_key_none(s1, "message"@);
        let s2 = record::spec_insert(s1, "message"@, ValueV::Text(msg@));
        assert(s2 =~= s1.push(("message"@, ValueV::Text(msg@))));
        record::lemma_find_key_none(s2, "target"@);
        let s3 = record::spec_insert(s2, "target"@, ValueV::Text("structured_logger"@));
        assert(s3 =~= s2.push(("target"@, ValueV::Text("structured_logger"@))));
        record::lemma_find_key_none(s3, "timestamp"@);
        let s4 = record::spec_insert(s3, "timestamp"@, ValueV::Int(timestamp as int));
        assert(s4 =~= s3.push(("timestamp"@, ValueV::Int(timestamp as int))));
        assert(rec@ == s4);
        assert(s4 =~= fallback_fields(msg@, timestamp));
    }
    codec::encode_line(&rec)
}

/// Relies on std::io::Stderr::write_all (through std::io::stderr): writes
/// the line's bytes to the standard error stream; a write failure is
/// dropped, there being no lower-level channel to report through.
#[verifier::external_body]
fn stderr_write(line: &str) {
    let _ = std::io::stderr().write_all(line.as_bytes());
}

/// The fallback used when a writer fails: writes one failure line directly
/// to the standard error stream, bypassing every configured writer.
pub fn log_failure(msg: &str) {
    let ts = unix_ms();
    let line = fallback_line(msg, ts);
    stderr_write(line.as_str());
}

/// The fallback never fails and frames exactly: for every message text and
/// timestamp, the fallback line decodes back to its fixed field set, its
/// decoded `message` equals the input exactly, and the line ends in exactly
/// one line feed.
pub proof fn lemma_fallback_round_trip(m: Seq<char>, ts: u64)
    ensures
        codec::decode_line(enc_line(fallback_fields(m, ts))) == Some(fallback_fields(m, ts)),
        record::lookup(fallback_fields(m, ts), "message"@) == Some(ValueV::Text(m)),
        enc_line(fallback_fields(m, ts)).last() == '\n',
        forall|i: int|
            0 <= i < enc_line(fallback_fields(m, ts)).len() - 1 ==> #[trigger] enc_line(
                fallback_fields(m, ts),
            )[i] != '\n',
{
    codec::lemma_line_round_trip(fallback_fields(m, ts));
    codec::lemma_line_single_newline(fallback_fields(m, ts));
    reveal_strlit("level");
    reveal_strlit("message");
    assert("level"@.len() == 5 && "message"@.len() == 7);
    let fs = fallback_fields(m, ts);
    assert(fs[0].0 == "level"@ && fs[1].0 == "message"@);
    record::lemma_find_key_at(fs, "message"@, 1);
}

/// The index of the first pattern in `table` matching `t`, or `-1` if none
/// does.
pub open spec fn spec_first_match(table: Seq<InnerTarget>, t: Seq<char>) -> int
    decreases table.len(),
{
    if table.len() == 0 {
        -1
    } else if table[0].spec_test(t) {
        0
    } else {
        let r = spec_first_match(table.drop_first(), t);
        if r < 0 {
            -1
        } else {
            r + 1
        }
    }
}

pub proof fn lemma_first_match_at(table: Seq<InnerTarget>, t: Seq<char>, i: int)
    requires
        0 <= i < table.len(),
        table[i].spec_test(t),
        forall|j: int| 0 <= j < i ==> !(#[trigger] table[j]).spec_test(t),
    ensures
        spec_first_match(table, t) == i,
    decreases table.len(),
{
    if i == 0 {
    } else {
        assert(!table[0].spec_test(t));
        lemma_first_match_at(table.drop_first(), t, i - 1);
    }
}

pub proof fn lemma_first_match_none(table: Seq<InnerTarget>, t: Seq<char>)
    requires
        forall|j: int| 0 <= j < table.len() ==> !(#[trigger] table[j]).spec_test(t),
    ensures
        spec_first_match(table, t) == -1,
    decreases table.len(),
{
    if table.len() > 0 {
        lemma_first_match_none(table.drop_first(), t);
    }
}

pub proof fn lemma_first_match_props(table: Seq<InnerTarget>, t: Seq<char>)
    ensures
        -1 <= spec_first_match(table, t) < table.len(),
        spec_first_match(table, t) >= 0 ==> table[spec_first_match(table, t)].spec_test(t),
        forall|j: int|
            0 <= j < table.len() && (spec_first_match(table, t) == -1 || j < spec_first_match(
                table,
                t,
            )) ==> !(#[trigger] table[j]).spec_test(t),
    decreases table.len(),
{
    if table.len() == 0 {
    } else if table[0].spec_test(t) {
    } else {
        lemma_first_match_props(table.drop_first(), t);
        assert(forall|j: int|
            1 <= j < table.len() ==> #[trigger] table[j] == table.drop_first()[j - 1]);
    }
}

/// First-match routing: when two routing entries both match a target, the
/// one registered earlier is selected; and whenever any entry matches, an
/// entry - never the default writer - is selected.
pub proof fn lemma_first_match_routing(table: Seq<InnerTarget>, t: Seq<char>, i: int, j: int)
    requires
        0 <= i < j < table.len(),
        table[i].spec_test(t),
        table[j].spec_test(t),
    ensures
        0 <= spec_first_match(table, t) <= i,
        table[spec_first_match(table, t)].spec_test(t),
{
    lemma_first_match_props(table, t);
}

/// The dispatcher: a level filter, an ordered routing table, a default
/// writer, and the name of the message field. Frozen after construction.
/// The compiled patterns and the routed writers correspond index-wise:
/// `writers[i]` receives the records whose target first matches `table[i]`.
pub struct Logger {
    pub filter: LevelFilter,
    pub default_writer: WriterBox,
    pub table: Vec<InnerTarget>,
    pub writers: Vec<WriterBox>,
    pub message_field: String,
}

impl Logger {
    /// One routed writer per compiled pattern.
    pub open spec fn wf(&self) -> bool {
        self.table@.len() == self.writers@.len()
    }

    /// Whether an event of level `level` is processed at all: true iff
    /// `level` is at least as severe as the configured threshold.
    pub fn enabled(&self, level: Level) -> (r: bool)
        ensures
            r == self.filter.spec_admits(level),
    {
        self.filter.admits(level)
    }

    /// The index of the first routing entry whose pattern matches `target`,
    /// or `None` if no entry matches.
    pub fn route(&self, target: &str) -> (r: Option<usize>)
        ensures
            match r {
                Some(i) => i as int == spec_first_match(self.table@, target@),
                None => spec_first_match(self.table@, target@) == -1,
            },
    {
        let mut i: usize = 0;
        while i < self.table.len()
            invariant
                i <= self.table@.len(),
                forall|j: int| 0 <= j < i ==> !(#[trigger] self.table@[j]).spec_test(target@),
            decreases self.table@.len() - i,
        {
            if self.table[i].test(target) {
                proof {
                    lemma_first_match_at(self.table@, target@, i as int);
                }
                return Some(i);
            }
            i = i + 1;
        }
        proof {
            lemma_first_match_none(self.table@, target@);
        }
        None
    }

    /// The writer of the first routing entry matching `target`, or the
    /// default writer if no entry matches.
    pub fn get_writer(&self, target: &str) -> (w: &Box<dyn Writer>)
        requires
            self.wf(),
        ensures
            ({
                let i = spec_first_match(self.table@, target@);
                if i >= 0 {
                    w == self.writers@[i].0
                } else {
                    w == self.default_writer.0
                }
            }),
    {
        proof {
            lemma_first_match_props(self.table@, target@);
        }
        match self.route(target) {
            Some(i) => &self.writers[i].0,
            None => &self.default_writer.0,
        }
    }

    /// Builds the record for `event`, stamped with the current time, routes
    /// it by the event's target, and hands it to the selected writer,
    /// returning whatever the writer reports.
    pub fn try_log(&self, event: &LogEvent) -> (r: Result<(), WriteError>)
        requires
            self.wf(),
    {
        let ts = unix_ms();
        let record = build_record(event, self.message_field.as_str(), ts);
        let w = self.get_writer(event.target.as_str());
        w.write_log(&record)
    }

    /// Processes one event: drops it when its level does not pass the
    /// filter; otherwise dispatches it, and reports any writer failure
    /// through the fallback path, never to the caller.
    pub fn log(&self, event: &LogEvent)
        requires
            self.wf(),
    {
        if self.enabled(event.level) {
            match self.try_log(event) {
                Ok(_) => (),
                Err(e) => {
                    let mut msg = str_owned("Logger failed to log: ");
                    msg.append(e.message.as_str());
                    log_failure(msg.as_str());
                },
            }
        }
    }

    /// The logger buffers nothing, so there is nothing to flush.
    pub fn flush(&self) {
    }
}

/// Assembles a [`Logger`]: a level filter, routed writers in registration
/// order, a default writer, and the message field's name. The collected
/// patterns and writers correspond index-wise.
pub struct Builder {
    pub filter: LevelFilter,
    pub default_writer: WriterBox,
    pub targets: Vec<Target>,
    pub writers: Vec<WriterBox>,
    pub with_msg: bool,
}

impl Builder {
    /// One routed writer per collected pattern.
    pub open spec fn wf(&self) -> bool {
        self.targets@.len() == self.writers@.len()
    }

    /// A builder whose threshold is named by `level` (`"OFF"`, `"ERROR"`,
    /// `"WARN"`, `"INFO"`, `"DEBUG"`, `"TRACE"`, ignoring ASCII case; any
    /// other text means `Info`), writing to the standard error stream by
    /// default.
    pub fn with_level(level: &str) -> (r: Builder)
        ensures
            r.filter == match level::spec_parse_filter(level@) {
                Some(f) => f,
                None => LevelFilter::Info,
            },
            r.targets@.len() == 0,
            !r.with_msg,
            r.wf(),
    {
        let filter = match level::parse_level_filter(level) {
            Some(f) => f,
            None => LevelFilter::Info,
        };
        Builder {
            filter,
            default_writer: json::stderr_writer(),
            targets: Vec::new(),
            writers: Vec::new(),
            with_msg: false,
        }
    }

    /// A builder with the given threshold, writing to the standard error
    /// stream by default.
    pub fn with_level_filter(filter: LevelFilter) -> (r: Builder)
        ensures
            r.filter == filter,
            r.targets@.len() == 0,
            !r.with_msg,
            r.wf(),
    {
        Builder {
            filter,
            default_writer: json::stderr_writer(),
            targets: Vec::new(),
            writers: Vec::new(),
            with_msg: false,
        }
    }

    /// This builder with `writer` as the default writer; every other choice
    /// is kept.
    pub fn with_default_writer(self, writer: WriterBox) -> (r: Builder)
        ensures
            r.filter == self.filter,
            r.default_writer == writer,
            r.targets == self.targets,
            r.writers@ == self.writers@,
            r.with_msg == self.with_msg,
            r.wf() == self.wf(),
    {
        let Builder { filter, targets, writers, with_msg, .. } = self;
        Builder { filter, default_writer: writer, targets, writers, with_msg }
    }

    /// This builder with one more routing entry appended: events whose
    /// target matches the `targets` pattern go to `writer`. Entries are kept
    /// in registration order - the earliest match wins - and every other
    /// choice is kept.
    pub fn with_target_writer(self, targets: &str, writer: WriterBox) -> (r: Builder)
        ensures
            r.filter == self.filter,
            r.default_writer == self.default_writer,
            r.writers@ == self.writers@.push(writer),
            r.targets@.len() == self.targets@.len() + 1,
            forall|i: int| 0 <= i < self.targets@.len() ==> r.targets@[i] == self.targets@[i],
            forall|t: Seq<char>|
                (#[trigger] r.targets@[self.targets@.len() as int].spec_test(t))
                    == pattern_matches(targets@, t),
            r.with_msg == self.with_msg,
            self.wf() ==> r.wf(),
    {
        let Builder { filter, default_writer, targets: tv, writers: wv, with_msg } = self;
        let mut tv = tv;
        let mut wv = wv;
        tv.push(Target::from(targets));
        wv.push(writer);
        Builder { filter, default_writer, targets: tv, writers: wv, with_msg }
    }

    /// This builder writing the message under `"msg"` instead of
    /// `"message"`.
    pub fn with_msg_field(self) -> (r: Builder)
        ensures
            r.filter == self.filter,
            r.default_writer == self.default_writer,
            r.targets == self.targets,
            r.writers@ == self.writers@,
            r.with_msg,
            r.wf() == self.wf(),
    {
        let Builder { filter, default_writer, targets, writers, .. } = self;
        Builder { filter, default_writer, targets, writers, with_msg: true }
    }

    /// Freezes this configuration into a [`Logger`]: the same filter and
    /// default writer, the routing patterns compiled in registration order
    /// with their writers, and the chosen message field name.
    pub fn build(self) -> (lg: Logger)
        requires
            self.wf(),
        ensures
            lg.filter == self.filter,
            lg.message_field@ == if self.with_msg {
                "msg"@
            } else {
                "message"@
            },
            lg.default_writer == self.default_writer,
            lg.writers@ == self.writers@,
            lg.table@.len() == self.targets@.len(),
            forall|i: int|
                #![trigger lg.table@[i]]
                0 <= i < self.targets@.len() ==> (forall|t: Seq<char>|
                    (#[trigger] lg.table@[i].spec_test(t)) == self.targets@[i].spec_test(t)),
            lg.wf(),
    {
        let Builder { filter, default_writer, targets, writers, with_msg } = self;
        let ghost orig = targets@;
        let mut targets = targets;
        let mut table: Vec<InnerTarget> = Vec::new();
        while targets.len() > 0
            invariant
                table@.len() + targets@.len() == orig.len(),
                forall|j: int|
                    0 <= j < targets@.len() ==> #[trigger] targets@[j] == orig[table@.len() + j],
                forall|i: int|
                    #![trigger table@[i]]
                    0 <= i < table@.len() ==> (forall|t: Seq<char>|
                        (#[trigger] table@[i].spec_test(t)) == orig[i].spec_test(t)),
            decreases targets@.len(),
        {
            let tgt = targets.remove(0);
            table.push(InnerTarget::from(tgt));
        }
        let message_field = if with_msg {
            str_owned("msg")
        } else {
            str_owned("message")
        };
        let lg = Logger { filter, default_writer, table, writers, message_field };
        assert(lg.writers@.len() == orig.len());
        lg
    }
}



} // verus!
