//! Events, field values, and the enriched record built from one event.
//!
//! A [`Record`] is an ordered mapping from field names to values: insertion
//! order is kept, and inserting at an existing key overwrites its value in
//! place. [`build_record`] merges the caller's key/value pairs with the
//! standard fields; the standard fields are inserted later, so they win over
//! caller-supplied fields of the same name.
use vstd::prelude::*;

use crate::level::Level;
use crate::text::{str_eq, str_owned};

verus! {

/// A field value carried by an event or a record: text, a signed or
/// unsigned integer, a boolean, or null. The core deliberately holds plain
/// values only: nested structures and floating-point numbers are rendered
/// as text at the boundary before they enter it.
pub enum Value {
    Null,
    Bool(bool),
    Unsigned(u64),
    Signed(i64),
    Text(String),
}

/// The mathematical model of a field value.
pub enum ValueV {
    Null,
    Bool(bool),
    Int(int),
    Text(Seq<char>),
}

impl View for Value {
    type V = ValueV;

    open spec fn view(&self) -> ValueV {
        match self {
            Value::Null => ValueV::Null,
            Value::Bool(b) => ValueV::Bool(*b),
            Value::Unsigned(n) => ValueV::Int(*n as int),
            Value::Signed(n) => ValueV::Int(*n as int),
            Value::Text(s) => ValueV::Text(s@),
        }
    }
}

impl Value {
    /// A copy of this value.
    pub fn duplicate(&self) -> (r: Value)
        ensures
            r@ == self@,
    {
        match self {
            Value::Null => Value::Null,
            Value::Bool(b) => Value::Bool(*b),
            Value::Unsigned(n) => Value::Unsigned(*n),
            Value::Signed(n) => Value::Signed(*n),
            Value::Text(s) => Value::Text(s.clone()),
        }
    }
}

/// The index of the first field named `k`, or `-1` if there is none.
pub open spec fn find_key(fs: Seq<(Seq<char>, ValueV)>, k: Seq<char>) -> int
    decreases fs.len(),
{
    if fs.len() == 0 {
        -1
    } else if fs[0].0 == k {
        0
    } else {
        let r = find_key(fs.drop_first(), k);
        if r < 0 {
            -1
        } else {
            r + 1
        }
    }
}

/// The value of the first field named `k`, if any.
pub open spec fn lookup(fs: Seq<(Seq<char>, ValueV)>, k: Seq<char>) -> Option<ValueV> {
    let i = find_key(fs, k);
    if i < 0 {
        None
    } else {
        Some(fs[i].1)
    }
}

/// Inserting at an existing key overwrites its value in place; a new key is
/// appended at the end.
pub open spec fn spec_insert(fs: Seq<(Seq<char>, ValueV)>, k: Seq<char>, v: ValueV) -> Seq<
    (Seq<char>, ValueV),
> {
    let i = find_key(fs, k);
    if i < 0 {
        fs.push((k, v))
    } else {
        fs.update(i, (k, v))
    }
}

pub proof fn lemma_find_key_props(fs: Seq<(Seq<char>, ValueV)>, k: Seq<char>)
    ensures
        -1 <= find_key(fs, k) < fs.len(),
        find_key(fs, k) >= 0 ==> fs[find_key(fs, k)].0 == k,
        forall|j: int|
            0 <= j < fs.len() && (find_key(fs, k) == -1 || j < find_key(fs, k)) ==> (
            #[trigger] fs[j]).0 != k,
    decreases fs.len(),
{
    if fs.len() == 0 {
    } else if fs[0].0 == k {
    } else {
        lemma_find_key_props(fs.drop_first(), k);
        assert(forall|j: int|
            1 <= j < fs.len() ==> #[trigger] fs[j] == fs.drop_first()[j - 1]);
    }
}

pub proof fn lemma_find_key_at(fs: Seq<(Seq<char>, ValueV)>, k: Seq<char>, i: int)
    requires
        0 <= i < fs.len(),
        fs[i].0 == k,
        forall|j: int| 0 <= j < i ==> (#[trigger] fs[j]).0 != k,
    ensures
        find_key(fs, k) == i,
    decreases fs.len(),
{
    if i == 0 {
    } else {
        assert(fs[0].0 != k);
        lemma_find_key_at(fs.drop_first(), k, i - 1);
    }
}

pub proof fn lemma_find_key_none(fs: Seq<(Seq<char>, ValueV)>, k: Seq<char>)
    requires
        forall|j: int| 0 <= j < fs.len() ==> (#[trigger] fs[j]).0 != k,
    ensures
        find_key(fs, k) == -1,
    decreases fs.len(),
{
    if fs.len() > 0 {
        lemma_find_key_none(fs.drop_first(), k);
    }
}

/// `find_key` reads only the field names.
pub proof fn lemma_find_key_same_keys(
    fs1: Seq<(Seq<char>, ValueV)>,
    fs2: Seq<(Seq<char>, ValueV)>,
    k: Seq<char>,
)
    requires
        fs1.len() == fs2.len(),
        forall|i: int| 0 <= i < fs1.len() ==> (#[trigger] fs1[i]).0 == (#[trigger] fs2[i]).0,
    ensures
        find_key(fs1, k) == find_key(fs2, k),
    decreases fs1.len(),
{
    if fs1.len() > 0 {
        assert(fs1[0].0 == fs2[0].0);
        lemma_find_key_same_keys(fs1.drop_first(), fs2.drop_first(), k);
    }
}

/// After an insertion at `k`, looking up `k` yields the inserted value.
pub proof fn lemma_lookup_insert(fs: Seq<(Seq<char>, ValueV)>, k: Seq<char>, v: ValueV)
    ensures
        lookup(spec_insert(fs, k, v), k) == Some(v),
{
    lemma_find_key_props(fs, k);
    let i = find_key(fs, k);
    if i < 0 {
        let fs2 = fs.push((k, v));
        assert(fs2[fs.len() as int].0 == k);
        lemma_find_key_at(fs2, k, fs.len() as int);
    } else {
        let fs2 = fs.update(i, (k, v));
        lemma_find_key_same_keys(fs, fs2, k);
        lemma_find_key_at(fs2, k, i) // the same index still holds `k`
        ;
    }
}

/// An insertion at `k` leaves every other field name unchanged.
pub proof fn lemma_lookup_insert_other(
    fs: Seq<(Seq<char>, ValueV)>,
    k: Seq<char>,
    v: ValueV,
    k2: Seq<char>,
)
    requires
        k2 != k,
    ensures
        lookup(spec_insert(fs, k, v), k2) == lookup(fs, k2),
{
    lemma_find_key_props(fs, k);
    lemma_find_key_props(fs, k2);
    let i = find_key(fs, k);
    let r = find_key(fs, k2);
    if i < 0 {
        let fs2 = fs.push((k, v));
        if r >= 0 {
            lemma_find_key_at(fs2, k2, r);
        } else {
            lemma_find_key_none(fs2, k2);
        }
    } else {
        let fs2 = fs.update(i, (k, v));
        lemma_find_key_same_keys(fs, fs2, k2);
    }
}

/// The enriched, ordered field mapping produced from one event.
pub struct Record {
    pub fields: Vec<(String, Value)>,
}

impl View for Record {
    type V = Seq<(Seq<char>, ValueV)>;

    open spec fn view(&self) -> Seq<(Seq<char>, ValueV)> {
        Seq::new(self.fields@.len(), |i: int| (self.fields@[i].0@, self.fields@[i].1@))
    }
}

impl Record {
    /// Field names are pairwise distinct.
    pub open spec fn wf(&self) -> bool {
        forall|i: int, j: int|
            0 <= i < j < self@.len() ==> (#[trigger] self@[i]).0 != (#[trigger] self@[j]).0
    }

    /// An empty record.
    pub fn new() -> (r: Record)
        ensures
            r@ == Seq::<(Seq<char>, ValueV)>::empty(),
            r.wf(),
    {
        let r = Record { fields: Vec::new() };
        proof {
            assert(r@ =~= Seq::<(Seq<char>, ValueV)>::empty());
        }
        r
    }

    /// How many fields the record holds.
    pub fn len(&self) -> (n: usize)
        ensures
            n == self@.len(),
    {
        self.fields.len()
    }

    /// The value of the first field named `k`, if any.
    pub fn get(&self, k: &str) -> (r: Option<&Value>)
        ensures
            match r {
                Some(v) => lookup(self@, k@) == Some(v@),
                None => lookup(self@, k@) is None,
            },
    {
        let mut i: usize = 0;
        while i < self.fields.len()
            invariant
                i <= self@.len(),
                self@.len() == self.fields@.len(),
                forall|j: int| 0 <= j < i ==> (#[trigger] self@[j]).0 != k@,
            decreases self@.len() - i,
        {
            if str_eq(self.fields[i].0.as_str(), k) {
                proof {
                    lemma_find_key_at(self@, k@, i as int);
                }
                return Some(&self.fields[i].1);
            }
            i = i + 1;
        }
        proof {
            lemma_find_key_none(self@, k@);
        }
        None
    }

    /// Inserts a field: overwrites in place at an existing name, else
    /// appends. Keeps well-formedness.
    pub fn insert(&mut self, k: String, v: Value)
        ensures
            final(self)@ == spec_insert(old(self)@, k@, v@),
            old(self).wf() ==> final(self).wf(),
    {
        let ghost fs = self@;
        let mut i: usize = 0;
        while i < self.fields.len()
            invariant
                i <= fs.len(),
                self@ == fs,
                fs == old(self)@,
                fs.len() == self.fields@.len(),
                forall|j: int| 0 <= j < i ==> (#[trigger] fs[j]).0 != k@,
            decreases fs.len() - i,
        {
            if str_eq(self.fields[i].0.as_str(), k.as_str()) {
                proof {
                    assert(fs[i as int].0 == k@);
                    lemma_find_key_at(fs, k@, i as int);
                }
                self.fields.set(i, (k, v));
                proof {
                    let nv = self@;
                    assert(nv =~= fs.update(i as int, (k@, v@)));
                    if old(self).wf() {
                        assert forall|a: int, b: int| 0 <= a < b < nv.len() implies (
                        #[trigger] nv[a]).0 != (#[trigger] nv[b]).0 by {
                            assert((old(self)@[a]).0 != (old(self)@[b]).0);
                            assert(fs[i as int].0 == k@);
                            if a == i {
                                assert(nv[a].0 == k@ && nv[b].0 == fs[b].0);
                            } else if b == i {
                                assert(nv[b].0 == k@ && nv[a].0 == fs[a].0);
                            } else {
                                assert(nv[a].0 == fs[a].0 && nv[b].0 == fs[b].0);
                            }
                        }
                    }
                }
                return ;
            }
            i = i + 1;
        }
        proof {
            lemma_find_key_none(fs, k@);
        }
        self.fields.push((k, v));
        proof {
            let nv = self@;
            assert(nv =~= fs.push((k@, v@)));
            if old(self).wf() {
                assert forall|a: int, b: int| 0 <= a < b < nv.len() implies (#[trigger] nv[a]).0
                    != (#[trigger] nv[b]).0 by {
                    if b < fs.len() {
                        assert(fs[a].0 != fs[b].0);
                    } else {
                        assert(fs[a].0 != k@);
                    }
                }
            }
        }
    }
}

/// One log event as emitted by a caller: a routing target, a severity, a
/// message, the caller's key/value pairs, and an optional source location.
pub struct LogEvent {
    pub target: String,
    pub level: Level,
    pub message: String,
    pub kvs: Vec<(String, Value)>,
    pub module: Option<String>,
    pub file: Option<String>,
    pub line: Option<u32>,
}

/// The mathematical model of a log event.
pub struct LogEventV {
    pub target: Seq<char>,
    pub level: Level,
    pub message: Seq<char>,
    pub kvs: Seq<(Seq<char>, ValueV)>,
    pub module: Option<Seq<char>>,
    pub file: Option<Seq<char>>,
    pub line: Option<u32>,
}

/// The models of a sequence of key/value pairs.
pub open spec fn kvs_view(kvs: Seq<(String, Value)>) -> Seq<(Seq<char>, ValueV)> {
    Seq::new(kvs.len(), |i: int| (kvs[i].0@, kvs[i].1@))
}

impl View for LogEvent {
    type V = LogEventV;

    open spec fn view(&self) -> LogEventV {
        LogEventV {
            target: self.target@,
            level: self.level,
            message: self.message@,
            kvs: kvs_view(self.kvs@),
            module: match self.module {
                Some(ref m) => Some(m@),
                None => None,
            },
            file: match self.file {
                Some(ref f) => Some(f@),
                None => None,
            },
            line: self.line,
        }
    }
}


/// The synthetic event built for an uncaught runtime fault: level `Error`,
/// target `"panic"`, a message of the form `thread '<name>' <description>`,
/// and the backtrace and thread name as key/value pairs, so the fault runs
/// through the same filtering and routing as any other event.
pub fn panic_event(
    thread_name: &str,
    description: &str,
    backtrace: String,
    file: Option<String>,
    line: Option<u32>,
) -> (e: LogEvent)
    ensures
        e.target@ == "panic"@,
        e.level == Level::Error,
        e.message@ == "thread '"@ + thread_name@ + "' "@ + description@,
        e@.kvs == seq![
            ("backtrace"@, ValueV::Text(backtrace@)),
            ("thread_name"@, ValueV::Text(thread_name@)),
        ],
        e.module is None,
        e.file == file,
        e.line == line,
{
    let mut message = str_owned("thread '");
    message.append(thread_name);
    message.append("' ");
    message.append(description);
    let mut kvs: Vec<(String, Value)> = Vec::new();
    kvs.push((str_owned("backtrace"), Value::Text(backtrace)));
    kvs.push((str_owned("thread_name"), Value::Text(str_owned(thread_name))));
    let e = LogEvent {
        target: str_owned("panic"),
        level: Level::Error,
        message,
        kvs,
        module: None,
        file,
        line,
    };
    proof {
        assert(e@.kvs =~= seq![
            ("backtrace"@, ValueV::Text(backtrace@)),
            ("thread_name"@, ValueV::Text(thread_name@)),
        ]);
    }
    e
}

/// Every pair of `kvs` inserted in order.
pub open spec fn insert_all(
    fs: Seq<(Seq<char>, ValueV)>,
    kvs: Seq<(Seq<char>, ValueV)>,
) -> Seq<(Seq<char>, ValueV)>
    decreases kvs.len(),
{
    if kvs.len() == 0 {
        fs
    } else {
        insert_all(spec_insert(fs, kvs[0].0, kvs[0].1), kvs.drop_first())
    }
}

pub proof fn lemma_insert_all_snoc(
    fs: Seq<(Seq<char>, ValueV)>,
    kvs: Seq<(Seq<char>, ValueV)>,
    x: (Seq<char>, ValueV),
)
    ensures
        insert_all(fs, kvs.push(x)) == spec_insert(insert_all(fs, kvs), x.0, x.1),
    decreases kvs.len(),
{
    let p = kvs.push(x);
    assert(insert_all(fs, p) == insert_all(spec_insert(fs, p[0].0, p[0].1), p.drop_first()));
    if kvs.len() == 0 {
        assert(p[0] == x);
        assert(p.drop_first() =~= Seq::<(Seq<char>, ValueV)>::empty());
        assert(insert_all(spec_insert(fs, x.0, x.1), p.drop_first()) == spec_insert(
            fs,
            x.0,
            x.1,
        ));
        assert(insert_all(fs, kvs) == fs);
    } else {
        assert(p.drop_first() =~= kvs.drop_first().push(x));
        assert(p[0] == kvs[0]);
        lemma_insert_all_snoc(spec_insert(fs, kvs[0].0, kvs[0].1), kvs.drop_first(), x);
        assert(insert_all(fs, kvs) == insert_all(
            spec_insert(fs, kvs[0].0, kvs[0].1),
            kvs.drop_first(),
        ));
    }
}

/// The source-location fields of an event, inserted when known.
pub open spec fn with_source(fs: Seq<(Seq<char>, ValueV)>, e: LogEventV) -> Seq<
    (Seq<char>, ValueV),
> {
    let f1 = match e.module {
        Some(m) => spec_insert(fs, "module"@, ValueV::Text(m)),
        None => fs,
    };
    let f2 = match e.file {
        Some(f) => spec_insert(f1, "file"@, ValueV::Text(f)),
        None => f1,
    };
    match e.line {
        Some(n) => spec_insert(f2, "line"@, ValueV::Int(n as int)),
        None => f2,
    }
}

/// The record built from one event: the caller's pairs in order, then the
/// standard fields `target`, the message field, `level`, the source location
/// for `Warn` and `Error` events, and `timestamp`. Standard fields are
/// inserted later, so they overwrite caller-supplied fields of the same name.
pub open spec fn spec_build_record(e: LogEventV, mf: Seq<char>, ts: u64) -> Seq<
    (Seq<char>, ValueV),
> {
    let f0 = insert_all(Seq::empty(), e.kvs);
    let f1 = spec_insert(f0, "target"@, ValueV::Text(e.target));
    let f2 = spec_insert(f1, mf, ValueV::Text(e.message));
    let f3 = spec_insert(f2, "level"@, ValueV::Text(e.level.spec_name()));
    let f4 = if e.level.rank() <= Level::Warn.rank() {
        with_source(f3, e)
    } else {
        f3
    };
    spec_insert(f4, "timestamp"@, ValueV::Int(ts as int))
}

/// Builds the enriched record for one event, stamped with `timestamp` and
/// using `message_field` as the name of the message field.
pub fn build_record(event: &LogEvent, message_field: &str, timestamp: u64) -> (r: Record)
    ensures
        r@ == spec_build_record(event@, message_field@, timestamp),
        r.wf(),
{
    let mut r = Record::new();
    let ghost kvs = kvs_view(event.kvs@);
    let mut i: usize = 0;
    while i < event.kvs.len()
        invariant
            i <= kvs.len(),
            kvs == kvs_view(event.kvs@),
            kvs.len() == event.kvs@.len(),
            r@ == insert_all(Seq::empty(), kvs.take(i as int)),
            r.wf(),
        decreases kvs.len() - i,
    {
        r.insert(event.kvs[i].0.clone(), event.kvs[i].1.duplicate());
        proof {
            assert(kvs.take(i + 1 as int) =~= kvs.take(i as int).push(kvs[i as int]));
            lemma_insert_all_snoc(Seq::empty(), kvs.take(i as int), kvs[i as int]);
        }
        i = i + 1;
    }
    proof {
        assert(kvs.take(kvs.len() as int) =~= kvs);
    }
    r.insert(str_owned("target"), Value::Text(event.target.clone()));
    r.insert(str_owned(message_field), Value::Text(event.message.clone()));
    r.insert(str_owned("level"), Value::Text(str_owned(event.level.as_str())));
    if event.level.rank_u8() <= 2 {
        match &event.module {
            Some(m) => r.insert(str_owned("module"), Value::Text(m.clone())),
            None => (),
        }
        match &event.file {
            Some(f) => r.insert(str_owned("file"), Value::Text(f.clone())),
            None => (),
        }
        match event.line {
            Some(n) => r.insert(str_owned("line"), Value::Unsigned(n as u64)),
            None => (),
        }
    }
    r.insert(str_owned("timestamp"), Value::Unsigned(timestamp));
    r
}

proof fn lemma_lookup_with_source_other(fs: Seq<(Seq<char>, ValueV)>, e: LogEventV, k: Seq<char>)
    requires
        k != "module"@,
        k != "file"@,
        k != "line"@,
    ensures
        lookup(with_source(fs, e), k) == lookup(fs, k),
{
    let f1 = match e.module {
        Some(m) => spec_insert(fs, "module"@, ValueV::Text(m)),
        None => fs,
    };
    let f2 = match e.file {
        Some(f) => spec_insert(f1, "file"@, ValueV::Text(f)),
        None => f1,
    };
    match e.module {
        Some(m) => lemma_lookup_insert_other(fs, "module"@, ValueV::Text(m), k),
        None => (),
    }
    match e.file {
        Some(f) => lemma_lookup_insert_other(f1, "file"@, ValueV::Text(f), k),
        None => (),
    }
    match e.line {
        Some(n) => lemma_lookup_insert_other(f2, "line"@, ValueV::Int(n as int), k),
        None => (),
    }
}

/// Standard fields always win: in the built record, the values at the
/// standard field names are determined by the event's standard data alone,
/// whatever key/value pairs the caller supplied.
pub proof fn lemma_standard_fields_win(e: LogEventV, mf: Seq<char>, ts: u64)
    ensures
        lookup(spec_build_record(e, mf, ts), "timestamp"@) == Some(ValueV::Int(ts as int)),
        mf != "level"@ ==> lookup(spec_build_record(e, mf, ts), "level"@) == Some(
            ValueV::Text(e.level.spec_name()),
        ),
        mf != "target"@ ==> lookup(spec_build_record(e, mf, ts), "target"@) == Some(
            ValueV::Text(e.target),
        ),
        mf != "level"@ && mf != "module"@ && mf != "file"@ && mf != "line"@ && mf != "timestamp"@
            ==> lookup(spec_build_record(e, mf, ts), mf) == Some(ValueV::Text(e.message)),
{
    reveal_strlit("target");
    reveal_strlit("level");
    reveal_strlit("module");
    reveal_strlit("file");
    reveal_strlit("line");
    reveal_strlit("timestamp");
    assert("target"@.len() == 6 && "level"@.len() == 5 && "module"@.len() == 6 && "file"@.len()
        == 4 && "line"@.len() == 4 && "timestamp"@.len() == 9);
    assert("target"@[0] == 't' && "module"@[0] == 'm');
    let f0 = insert_all(Seq::empty(), e.kvs);
    let f1 = spec_insert(f0, "target"@, ValueV::Text(e.target));
    let f2 = spec_insert(f1, mf, ValueV::Text(e.message));
    let f3 = spec_insert(f2, "level"@, ValueV::Text(e.level.spec_name()));
    let f4 = if e.level.rank() <= Level::Warn.rank() {
        with_source(f3, e)
    } else {
        f3
    };
    lemma_lookup_insert(f4, "timestamp"@, ValueV::Int(ts as int));
    if mf != "level"@ {
        lemma_lookup_insert(f2, "level"@, ValueV::Text(e.level.spec_name()));
        if e.level.rank() <= Level::Warn.rank() {
            lemma_lookup_with_source_other(f3, e, "level"@);
        }
        lemma_lookup_insert_other(f4, "timestamp"@, ValueV::Int(ts as int), "level"@);
    }
    if mf != "target"@ {
        lemma_lookup_insert(f0, "target"@, ValueV::Text(e.target));
        lemma_lookup_insert_other(f1, mf, ValueV::Text(e.message), "target"@);
        lemma_lookup_insert_other(f2, "level"@, ValueV::Text(e.level.spec_name()), "target"@);
        if e.level.rank() <= Level::Warn.rank() {
            lemma_lookup_with_source_other(f3, e, "target"@);
        }
        lemma_lookup_insert_other(f4, "timestamp"@, ValueV::Int(ts as int), "target"@);
    }
    if mf != "level"@ && mf != "module"@ && mf != "file"@ && mf != "line"@ && mf != "timestamp"@ {
        lemma_lookup_insert(f1, mf, ValueV::Text(e.message));
        lemma_lookup_insert_other(f2, "level"@, ValueV::Text(e.level.spec_name()), mf);
        if e.level.rank() <= Level::Warn.rank() {
            lemma_lookup_with_source_other(f3, e, mf);
        }
        lemma_lookup_insert_other(f4, "timestamp"@, ValueV::Int(ts as int), mf);
    }
}

} // verus!
