//! The outcome every prio operation reports: a status, a message and its log.
use vstd::prelude::*;
use crate::error::{error_text, PrioError};
use crate::logger::{LogEntry, LogLevel};

verus! {

#[derive(Debug, Clone, Copy, PartialEq, Eq, Structural)]
pub enum PrioStatus {
    Success,
    Warning,
    Failure,
}

pub struct PrioResult {
    pub status: PrioStatus,
    pub message: String,
    pub logs: Vec<LogEntry>,
}

impl PrioResult {
    pub fn success(message: String, logs: Vec<LogEntry>) -> (r: Self)
        ensures
            r.status == PrioStatus::Success,
            r.message@ == message@,
            r.logs@ == logs@,
    {
        PrioResult { status: PrioStatus::Success, message, logs }
    }

    pub fn warning(message: String, logs: Vec<LogEntry>) -> (r: Self)
        ensures
            r.status == PrioStatus::Warning,
            r.message@ == message@,
            r.logs@ == logs@,
    {
        PrioResult { status: PrioStatus::Warning, message, logs }
    }

    pub fn failure(message: String, logs: Vec<LogEntry>) -> (r: Self)
        ensures
            r.status == PrioStatus::Failure,
            r.message@ == message@,
            r.logs@ == logs@,
    {
        PrioResult { status: PrioStatus::Failure, message, logs }
    }

    /// A failure carrying the error's message, with an error entry appended to the log.
    pub fn from_error(err: PrioError, logs: Vec<LogEntry>) -> (r: Self)
        ensures
            r.status == PrioStatus::Failure,
            r.message@ == error_text(err),
            r.logs@.len() == logs@.len() + 1,
            r.logs@.subrange(0, logs@.len() as int) == logs@,
            r.logs@.last().level == LogLevel::Error,
            r.logs@.last().message@ == error_text(err),
            r.logs@.last().cli is None,
    {
        let mut logs = logs;
        let ghost old_logs = logs@;
        logs.push(LogEntry::new(LogLevel::Error, err.to_message(), None));
        assert(logs@.subrange(0, old_logs.len() as int) =~= old_logs);
        PrioResult { status: PrioStatus::Failure, message: err.to_message(), logs }
    }
}

} // verus!
