//! The synchronous line writer.
//!
//! A [`JSONWriter`] frames each record as one line and writes the whole
//! line to one byte sink held behind a mutual-exclusion lock, so writes to
//! the same sink never interleave mid-line. The line is built by verified
//! code; only taking the lock and writing the bytes is entrusted to the
//! sink.
use vstd::prelude::*;

use std::io::Write as IoWrite;

use crate::codec::encode_line;
use crate::record::Record;
use crate::{WriteError, Writer, WriterBox};

verus! {

/// One byte sink behind a mutual-exclusion lock. Held opaquely: Verus
/// refuses the declaration of the lock around a trait-object sink, so the
/// whole cell is a trusted container with the two operations below.
#[verifier::external_body]
pub struct LockedSink {
    inner: parking_lot::Mutex<Box<dyn IoWrite + Send>>,
}

impl LockedSink {
    /// Relies on parking_lot::Mutex::new: puts the sink behind a fresh,
    /// unlocked lock.
    #[verifier::external_body]
    pub fn new<W: IoWrite + Send + 'static>(w: W) -> LockedSink {
        LockedSink { inner: parking_lot::Mutex::new(Box::new(w)) }
    }

    /// Relies on parking_lot::Mutex::lock and std::io::Write::write_all:
    /// takes the sink's lock, writes the whole line, and releases the lock,
    /// so two writes to the same sink never interleave; a failed write is
    /// returned as its description.
    #[verifier::external_body]
    fn write_line(&self, line: &str) -> Result<(), WriteError> {
        let mut sink = self.inner.lock();
        match sink.write_all(line.as_bytes()) {
            Ok(()) => Ok(()),
            Err(err) => Err(WriteError { message: err.to_string() }),
        }
    }
}

/// A writer that frames records as lines and writes them synchronously to
/// one byte sink behind a lock.
pub struct JSONWriter(pub LockedSink);

impl JSONWriter {
    /// A line writer over the given byte sink.
    pub fn new<W: IoWrite + Send + 'static>(w: W) -> JSONWriter {
        JSONWriter(LockedSink::new(w))
    }
}

impl Writer for JSONWriter {
    fn write_log(&self, value: &Record) -> Result<(), WriteError> {
        let line = encode_line(value);
        self.0.write_line(line.as_str())
    }
}

/// A boxed [`JSONWriter`] over the given byte sink.
pub fn new_writer<W: IoWrite + Send + 'static>(w: W) -> WriterBox {
    WriterBox::wrap(Box::new(JSONWriter::new(w)))
}

/// Relies on std::io::stderr: a boxed [`JSONWriter`] over the standard
/// error stream.
#[verifier::external_body]
pub fn stderr_writer() -> WriterBox {
    new_writer(std::io::stderr())
}

} // verus!
