//! Levels of the instrumentation front-end and severities of the backend.

use vstd::prelude::*;

verus! {

/// Verbosity level declared by an event or a span.
#[derive(Clone, Copy, Debug, PartialEq, Eq, Structural)]
pub enum Level {
    Error,
    Warn,
    Info,
    Debug,
    Trace,
}

/// Severity as the backend reports it.
#[derive(Clone, Copy, Debug, PartialEq, Eq, Structural)]
pub enum Severity {
    Debug,
    Info,
    Warning,
    Error,
}

/// The fixed mapping from front-end level to backend severity.
pub open spec fn severity_of(level: Level) -> Severity {
    match level {
        Level::Error => Severity::Error,
        Level::Warn => Severity::Warning,
        Level::Info => Severity::Info,
        Level::Debug => Severity::Debug,
        Level::Trace => Severity::Debug,
    }
}

/// Maps a front-end level to the severity reported to the backend.
pub fn convert_tracing_level(level: Level) -> (severity: Severity)
    ensures
        severity == severity_of(level),
{
    match level {
        Level::Error => Severity::Error,
        Level::Warn => Severity::Warning,
        Level::Info => Severity::Info,
        Level::Debug | Level::Trace => Severity::Debug,
    }
}

/// The most verbose level that a filter lets pass.
#[derive(Clone, Copy, Debug, PartialEq, Eq, Structural)]
pub enum LevelFilter {
    Off,
    Error,
    Warn,
    Info,
    Debug,
    Trace,
}

impl LevelFilter {
    /// The position of the filter among the filters, from the one that lets
    /// nothing pass to the one that lets everything pass.
    pub open spec fn rank(self) -> nat {
        match self {
            LevelFilter::Off => 0,
            LevelFilter::Error => 1,
            LevelFilter::Warn => 2,
            LevelFilter::Info => 3,
            LevelFilter::Debug => 4,
            LevelFilter::Trace => 5,
        }
    }

    /// The position of the filter among the filters.
    pub fn verbosity(self) -> (rank: u8)
        ensures
            rank == self.rank(),
    {
        match self {
            LevelFilter::Off => 0,
            LevelFilter::Error => 1,
            LevelFilter::Warn => 2,
            LevelFilter::Info => 3,
            LevelFilter::Debug => 4,
            LevelFilter::Trace => 5,
        }
    }
}

/// The more verbose of two filters.
pub open spec fn more_verbose(a: LevelFilter, b: LevelFilter) -> LevelFilter {
    if b.rank() > a.rank() {
        b
    } else {
        a
    }
}

/// The more verbose of two filters.
pub fn pick_more_verbose(a: LevelFilter, b: LevelFilter) -> (pick: LevelFilter)
    ensures
        pick == more_verbose(a, b),
{
    if b.verbosity() > a.verbosity() {
        b
    } else {
        a
    }
}

} // verus!
