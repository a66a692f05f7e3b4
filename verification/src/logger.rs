//! Log entries, how they read on a terminal, and the logger that either prints
//! them (command line, git hooks) or collects them (desktop UI).
use std::io::Write;
use vstd::prelude::*;
use vstd::string::StringExecFns;
use crate::result::{PrioResult, PrioStatus};
use crate::strings::{concat2, concat3, views};
use crate::util::now_ms;

verus! {

#[derive(Debug, Clone, Copy, PartialEq, Eq, Structural)]
pub enum LogLevel {
    Info,
    Warning,
    Error,
}

/// A command that prio ran: where, what, and an optional note.
pub struct CliCommandLog {
    pub cwd: String,
    pub command: String,
    pub comment: Option<String>,
}

pub struct LogEntry {
    pub level: LogLevel,
    pub message: String,
    pub timestamp_ms: u64,
    pub cli: Option<CliCommandLog>,
}

/// How a level reads in terminal output.
pub open spec fn level_text(l: LogLevel) -> Seq<char> {
    match l {
        LogLevel::Info => "info"@,
        LogLevel::Warning => "warn"@,
        LogLevel::Error => "error"@,
    }
}

pub fn level_string(l: LogLevel) -> (r: String)
    ensures
        r@ == level_text(l),
{
    match l {
        LogLevel::Info => String::from_str("info"),
        LogLevel::Warning => String::from_str("warn"),
        LogLevel::Error => String::from_str("error"),
    }
}

impl LogEntry {
    /// An entry stamped with the current time.
    pub fn new(level: LogLevel, message: String, cli: Option<CliCommandLog>) -> (r: Self)
        ensures
            r.level == level,
            r.message == message,
            r.cli == cli,
    {
        LogEntry { level, message, timestamp_ms: now_ms(), cli }
    }

    /// An entry recording a command line, with an empty message.
    pub fn cli_command(level: LogLevel, cwd: String, command: String, comment: Option<String>) -> (r: Self)
        ensures
            r.level == level,
            r.message@.len() == 0,
            r.cli == Some(CliCommandLog { cwd, command, comment }),
    {
        LogEntry {
            level,
            message: String::new(),
            timestamp_ms: now_ms(),
            cli: Some(CliCommandLog { cwd, command, comment }),
        }
    }

    pub fn info(message: String) -> (r: Self)
        ensures
            r.level == LogLevel::Info,
            r.message == message,
            r.cli is None,
    {
        Self::new(LogLevel::Info, message, None)
    }

    pub fn warning(message: String) -> (r: Self)
        ensures
            r.level == LogLevel::Warning,
            r.message == message,
            r.cli is None,
    {
        Self::new(LogLevel::Warning, message, None)
    }

    pub fn error(message: String) -> (r: Self)
        ensures
            r.level == LogLevel::Error,
            r.message == message,
            r.cli is None,
    {
        Self::new(LogLevel::Error, message, None)
    }
}

/// The text of a recorded command: `cwd $ command`, and a gray `# comment`.
pub open spec fn cli_text(cli: CliCommandLog) -> Seq<char> {
    cli.cwd@ + " $ "@ + cli.command@ + match cli.comment {
        Some(c) => " \x1b[90m# "@ + c@ + "\x1b[0m"@,
        None => Seq::empty(),
    }
}

/// An entry as one terminal line: `[level] text`.
pub open spec fn terminal_text(e: LogEntry) -> Seq<char> {
    "["@ + level_text(e.level) + "] "@ + match e.cli {
        Some(cli) => cli_text(cli),
        None => e.message@,
    }
}

pub fn format_log_entry_terminal(entry: &LogEntry) -> (r: String)
    ensures
        r@ == terminal_text(*entry),
{
    let lvl = level_string(entry.level);
    let mut r = concat3("[", lvl.as_str(), "] ");
    match &entry.cli {
        Some(cli) => {
            r.append(cli.cwd.as_str());
            r.append(" $ ");
            r.append(cli.command.as_str());
            match &cli.comment {
                Some(c) => {
                    r.append(" \x1b[90m# ");
                    r.append(c.as_str());
                    r.append("\x1b[0m");
                },
                None => {
                    assert(r@ =~= r@ + Seq::<char>::empty());
                },
            }
        },
        None => {
            r.append(entry.message.as_str());
        },
    }
    r
}

/// Brown `prio:` in the 256-color palette.
pub open spec fn hook_prefix() -> Seq<char> {
    "\x1b[38;5;130mprio:\x1b[0m"@
}

/// A line of hook output: the brown `prio:` prefix, a space, the line.
pub open spec fn hook_line(line: Seq<char>) -> Seq<char> {
    hook_prefix() + " "@ + line
}

pub fn prefix_hook_line(line: &str) -> (r: String)
    ensures
        r@ == hook_line(line@),
{
    concat3("\x1b[38;5;130mprio:\x1b[0m", " ", line)
}

/// Writes one line to standard error.
#[verifier::external_body]
fn write_stderr_line(line: &str) {
    let _ = writeln!(std::io::stderr(), "{}", line);
}

/// Where log entries go.
pub enum Logger {
    /// Printed to the terminal.
    Cli,
    /// Printed to the terminal with the hook prefix (git hook callbacks).
    Hook,
    /// Collected for the desktop UI.
    Ui(Vec<LogEntry>),
}

/// `after` is the logger `before` after one plain message `msg` at `level` was
/// logged: a collecting logger has recorded it, a printing one is unchanged.
pub open spec fn logged(before: Logger, after: Logger, level: LogLevel, msg: Seq<char>) -> bool {
    &&& after.same_kind(before)
    &&& if before is Ui {
        &&& after.recorded().len() == before.recorded().len() + 1
        &&& after.recorded().drop_last() == before.recorded()
        &&& after.recorded().last().level == level
        &&& after.recorded().last().message@ == msg
        &&& after.recorded().last().cli is None
    } else {
        after == before
    }
}

/// `after` is `before` once `entry` was logged: a collecting logger has it appended,
/// a printing one is unchanged.
pub open spec fn log_step(before: Logger, after: Logger, entry: LogEntry) -> bool {
    &&& after.same_kind(before)
    &&& !(before is Ui) ==> after == before
    &&& after.recorded() == (if before is Ui {
        before.recorded().push(entry)
    } else {
        before.recorded()
    })
}

/// `after` is `before` once drained, which handed out `taken`: everything it had
/// collected, leaving it empty.
pub open spec fn drain_step(before: Logger, after: Logger, taken: Seq<LogEntry>) -> bool {
    &&& taken == before.recorded()
    &&& after.same_kind(before)
    &&& after.recorded().len() == 0
}

/// A fresh UI logger that logs `entries` one by one (`loggers[k + 1]` is
/// `loggers[k]` after logging `entries[k]`) and is then drained twice hands out
/// exactly those entries, in order, the first time, and nothing the second time;
/// it holds nothing afterwards. A printing logger (terminal or hook) hands out nothing.
pub proof fn law_drain_returns_logged(
    loggers: Seq<Logger>,
    entries: Seq<LogEntry>,
    drained: Logger,
    first: Seq<LogEntry>,
    again: Logger,
    second: Seq<LogEntry>,
)
    requires
        loggers.len() == entries.len() + 1,
        loggers[0].recorded().len() == 0,
        forall|k: int| 0 <= k < entries.len() ==> #[trigger] log_step(loggers[k], loggers[k + 1], entries[k]),
        drain_step(loggers.last(), drained, first),
        drain_step(drained, again, second),
    ensures
        loggers[0] is Ui ==> first == entries,
        !(loggers[0] is Ui) ==> first.len() == 0,
        second.len() == 0,
        again.recorded().len() == 0,
        again.same_kind(loggers[0]),
{
    lemma_logged_prefix(loggers, entries, entries.len() as int);
    assert(entries.take(entries.len() as int) =~= entries);
}

proof fn lemma_logged_prefix(loggers: Seq<Logger>, entries: Seq<LogEntry>, n: int)
    requires
        loggers.len() == entries.len() + 1,
        0 <= n <= entries.len(),
        loggers[0].recorded().len() == 0,
        forall|k: int| 0 <= k < entries.len() ==> #[trigger] log_step(loggers[k], loggers[k + 1], entries[k]),
    ensures
        loggers[n].same_kind(loggers[0]),
        loggers[0] is Ui ==> loggers[n].recorded() == entries.take(n),
        !(loggers[0] is Ui) ==> loggers[n].recorded().len() == 0,
    decreases n,
{
    if n == 0 {
        assert(entries.take(0) =~= Seq::<LogEntry>::empty());
    } else {
        lemma_logged_prefix(loggers, entries, n - 1);
        let k = n - 1;
        assert(log_step(loggers[k], loggers[k + 1], entries[k]));
        assert(loggers[k + 1] == loggers[n]);
        assert(entries.take(n) =~= entries.take(n - 1).push(entries[n - 1]));
    }
}

impl Logger {
    /// The entries a UI logger has collected (none for the printing loggers).
    pub open spec fn recorded(self) -> Seq<LogEntry> {
        match self {
            Logger::Ui(v) => v@,
            _ => Seq::empty(),
        }
    }

    /// The logger keeps its kind.
    pub open spec fn same_kind(self, other: Logger) -> bool {
        &&& (self is Cli <==> other is Cli)
        &&& (self is Hook <==> other is Hook)
        &&& (self is Ui <==> other is Ui)
    }

    pub fn ui() -> (r: Self)
        ensures
            r is Ui,
            r.recorded().len() == 0,
    {
        Logger::Ui(Vec::new())
    }

    /// Records the entry (UI) or prints it to standard error (terminal, hook).
    pub fn log(&mut self, entry: LogEntry)
        ensures
            log_step(*old(self), *final(self), entry),
    {
        match self {
            Logger::Cli => {
                let line = format_log_entry_terminal(&entry);
                write_stderr_line(line.as_str());
            },
            Logger::Hook => {
                let line = format_log_entry_terminal(&entry);
                let h = prefix_hook_line(line.as_str());
                write_stderr_line(h.as_str());
            },
            Logger::Ui(v) => {
                v.push(entry);
            },
        }
    }

    pub fn info(&mut self, message: String)
        ensures
            logged(*old(self), *final(self), LogLevel::Info, message@),
    {
        let e = LogEntry::info(message);
        let ghost before = self.recorded();
        self.log(e);
        proof {
            if (*old(self)) is Ui {
                assert(self.recorded().drop_last() =~= before);
            }
        }
    }

    pub fn warning(&mut self, message: String)
        ensures
            logged(*old(self), *final(self), LogLevel::Warning, message@),
    {
        let e = LogEntry::warning(message);
        let ghost before = self.recorded();
        self.log(e);
        proof {
            if (*old(self)) is Ui {
                assert(self.recorded().drop_last() =~= before);
            }
        }
    }

    /// Takes the collected entries, leaving the logger empty.
    pub fn drain(&mut self) -> (r: Vec<LogEntry>)
        ensures
            drain_step(*old(self), *final(self), r@),
    {
        let mut tmp = Logger::Cli;
        std::mem::swap(self, &mut tmp);
        match tmp {
            Logger::Ui(v) => {
                *self = Logger::Ui(Vec::new());
                v
            },
            Logger::Cli => Vec::new(),
            Logger::Hook => {
                *self = Logger::Hook;
                Vec::new()
            },
        }
    }

    /// The collected entries.
    pub fn entries(&self) -> (r: &[LogEntry])
        ensures
            r@ == self.recorded(),
    {
        match self {
            Logger::Ui(v) => v.as_slice(),
            Logger::Cli | Logger::Hook => &[],
        }
    }
}

/// The status word and its color.
pub open spec fn status_prefix(s: PrioStatus) -> (Seq<char>, Seq<char>) {
    match s {
        PrioStatus::Success => ("SUCCESS"@, "\x1b[32m"@),
        PrioStatus::Warning => ("WARNING"@, "\x1b[33m"@),
        PrioStatus::Failure => ("FAILURE"@, "\x1b[31m"@),
    }
}

/// The first line: the colored status word and the message.
pub open spec fn status_text(r: PrioResult) -> Seq<char> {
    status_prefix(r.status).1 + status_prefix(r.status).0 + "\x1b[0m: "@ + r.message@
}

/// A log entry below the status line: hook-prefixed, or indented by two spaces.
pub open spec fn result_entry_text(e: LogEntry, hook: bool) -> Seq<char> {
    if hook {
        hook_line(terminal_text(e))
    } else {
        "  "@ + terminal_text(e)
    }
}

/// The lines that report a result on the terminal.
pub open spec fn result_text_lines(r: PrioResult, hook: bool) -> Seq<Seq<char>> {
    seq![if hook { hook_line(status_text(r)) } else { status_text(r) }] + r.logs@.map_values(
        |e: LogEntry| result_entry_text(e, hook),
    )
}

/// The lines that report a result on the terminal.
pub fn cli_result_lines(result: &PrioResult, hook: bool) -> (r: Vec<String>)
    ensures
        views(r@) == result_text_lines(*result, hook),
{
    let (prefix, color) = match result.status {
        PrioStatus::Success => ("SUCCESS", "\x1b[32m"),
        PrioStatus::Warning => ("WARNING", "\x1b[33m"),
        PrioStatus::Failure => ("FAILURE", "\x1b[31m"),
    };
    let mut status_line = concat3(color, prefix, "\x1b[0m: ");
    status_line.append(result.message.as_str());
    let mut out: Vec<String> = Vec::new();
    if hook {
        out.push(prefix_hook_line(status_line.as_str()));
    } else {
        out.push(status_line);
    }
    let mut i: usize = 0;
    while i < result.logs.len()
        invariant
            i <= result.logs.len(),
            views(out@) == seq![if hook { hook_line(status_text(*result)) } else { status_text(*result) }]
                + result.logs@.take(i as int).map_values(|e: LogEntry| result_entry_text(e, hook)),
        decreases result.logs.len() - i,
    {
        let line = format_log_entry_terminal(&result.logs[i]);
        let ghost before = out@;
        if hook {
            out.push(prefix_hook_line(line.as_str()));
        } else {
            out.push(concat2("  ", line.as_str()));
        }
        proof {
            assert(result.logs@.take(i + 1) =~= result.logs@.take(i as int).push(result.logs@[i as int]));
            assert(views(out@) =~= views(before).push(result_entry_text(result.logs@[i as int], hook)));
        }
        i = i + 1;
    }
    proof {
        assert(result.logs@.take(result.logs@.len() as int) =~= result.logs@);
    }
    out
}

fn print_cli_result_inner(result: &PrioResult, hook: bool) {
    let lines = cli_result_lines(result, hook);
    let mut i: usize = 0;
    while i < lines.len()
        invariant
            i <= lines.len(),
        decreases lines.len() - i,
    {
        write_stderr_line(lines[i].as_str());
        i = i + 1;
    }
}

/// Prints a result on standard error (the lines of `cli_result_lines`).
pub fn print_cli_result(result: &PrioResult) {
    print_cli_result_inner(result, false);
}

/// Prints a result on standard error with the hook prefix.
pub fn print_hook_result(result: &PrioResult) {
    print_cli_result_inner(result, true);
}

} // verus!
