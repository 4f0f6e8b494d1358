//! Severity levels and the level filter.
//!
//! An event carries a [`Level`]; the dispatcher holds a [`LevelFilter`].
//! An event is processed iff its level is at least as severe as the filter's
//! threshold. Severity is total: `Error` is the most severe level, `Trace`
//! the least; `LevelFilter::Off` admits nothing.
use vstd::prelude::*;

verus! {

/// The severity of one log event, from most severe to least.
#[derive(Clone, Copy, PartialEq, Eq, Structural, Debug)]
pub enum Level {
    Error,
    Warn,
    Info,
    Debug,
    Trace,
}

/// The threshold an event's level is tested against.
#[derive(Clone, Copy, PartialEq, Eq, Structural, Debug)]
pub enum LevelFilter {
    Off,
    Error,
    Warn,
    Info,
    Debug,
    Trace,
}

impl Level {
    /// Numeric rank of a level: smaller is more severe.
    pub open spec fn rank(self) -> int {
        match self {
            Level::Error => 1,
            Level::Warn => 2,
            Level::Info => 3,
            Level::Debug => 4,
            Level::Trace => 5,
        }
    }

    /// The canonical upper-case name of the level.
    pub open spec fn spec_name(self) -> Seq<char> {
        match self {
            Level::Error => "ERROR"@,
            Level::Warn => "WARN"@,
            Level::Info => "INFO"@,
            Level::Debug => "DEBUG"@,
            Level::Trace => "TRACE"@,
        }
    }

    /// Returns the canonical upper-case name of the level.
    pub fn as_str(self) -> (r: &'static str)
        ensures
            r@ == self.spec_name(),
    {
        match self {
            Level::Error => "ERROR",
            Level::Warn => "WARN",
            Level::Info => "INFO",
            Level::Debug => "DEBUG",
            Level::Trace => "TRACE",
        }
    }

    /// Rank as an executable value.
    pub fn rank_u8(self) -> (r: u8)
        ensures
            r as int == self.rank(),
    {
        match self {
            Level::Error => 1,
            Level::Warn => 2,
            Level::Info => 3,
            Level::Debug => 4,
            Level::Trace => 5,
        }
    }
}

impl LevelFilter {
    /// Numeric rank of a threshold: smaller admits fewer levels.
    pub open spec fn rank(self) -> int {
        match self {
            LevelFilter::Off => 0,
            LevelFilter::Error => 1,
            LevelFilter::Warn => 2,
            LevelFilter::Info => 3,
            LevelFilter::Debug => 4,
            LevelFilter::Trace => 5,
        }
    }

    /// Rank as an executable value.
    pub fn rank_u8(self) -> (r: u8)
        ensures
            r as int == self.rank(),
    {
        match self {
            LevelFilter::Off => 0,
            LevelFilter::Error => 1,
            LevelFilter::Warn => 2,
            LevelFilter::Info => 3,
            LevelFilter::Debug => 4,
            LevelFilter::Trace => 5,
        }
    }

    /// Whether an event of level `level` passes this threshold.
    pub open spec fn spec_admits(self, level: Level) -> bool {
        level.rank() <= self.rank()
    }

    /// Tests whether an event of level `level` passes this threshold:
    /// true iff `level` is at least as severe as the threshold.
    pub fn admits(self, level: Level) -> (r: bool)
        ensures
            r == self.spec_admits(level),
    {
        level.rank_u8() <= self.rank_u8()
    }
}

/// The threshold named by `s`, compared ignoring ASCII case, as for the
/// names `"OFF"`, `"ERROR"`, `"WARN"`, `"INFO"`, `"DEBUG"`, `"TRACE"`.
pub open spec fn spec_parse_filter(s: Seq<char>) -> Option<LevelFilter> {
    if crate::text::eq_ignore_ascii(s, "OFF"@) {
        Some(LevelFilter::Off)
    } else if crate::text::eq_ignore_ascii(s, "ERROR"@) {
        Some(LevelFilter::Error)
    } else if crate::text::eq_ignore_ascii(s, "WARN"@) {
        Some(LevelFilter::Warn)
    } else if crate::text::eq_ignore_ascii(s, "INFO"@) {
        Some(LevelFilter::Info)
    } else if crate::text::eq_ignore_ascii(s, "DEBUG"@) {
        Some(LevelFilter::Debug)
    } else if crate::text::eq_ignore_ascii(s, "TRACE"@) {
        Some(LevelFilter::Trace)
    } else {
        None
    }
}

/// Parses a threshold from its name, ignoring ASCII case; any other text is
/// rejected.
pub fn parse_level_filter(s: &str) -> (r: Option<LevelFilter>)
    ensures
        r == spec_parse_filter(s@),
{
    if crate::text::str_eq_ignore_ascii(s, "OFF") {
        Some(LevelFilter::Off)
    } else if crate::text::str_eq_ignore_ascii(s, "ERROR") {
        Some(LevelFilter::Error)
    } else if crate::text::str_eq_ignore_ascii(s, "WARN") {
        Some(LevelFilter::Warn)
    } else if crate::text::str_eq_ignore_ascii(s, "INFO") {
        Some(LevelFilter::Info)
    } else if crate::text::str_eq_ignore_ascii(s, "DEBUG") {
        Some(LevelFilter::Debug)
    } else if crate::text::str_eq_ignore_ascii(s, "TRACE") {
        Some(LevelFilter::Trace)
    } else {
        None
    }
}

/// Filtering is monotone in severity: if a level passes a threshold, every
/// at-least-as-severe level passes the same threshold, and a level strictly
/// below the threshold never passes.
pub proof fn lemma_filter_monotonicity(t: LevelFilter, s1: Level, s2: Level)
    requires
        s1.rank() <= s2.rank(),
        t.spec_admits(s2),
    ensures
        t.spec_admits(s1),
{
}

} // verus!
