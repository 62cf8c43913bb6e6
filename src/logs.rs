//! Log entries and the error document that the service returns when a
//! program cannot be compiled or run.

use vstd::prelude::*;

verus! {

/// The HTTP status of every error document: 417, Expectation Failed.
pub const EXPECTATION_FAILED: u16 = 417;

#[derive(Clone, Copy, Debug, PartialEq, Eq)]
pub enum LogType {
    Error,
    Warn,
    Info,
}

/// Self contained log entry.
#[derive(Clone, Debug)]
pub struct LogEntry {
    pub log_type: LogType,
    pub message: String,
}

/// Error document: a status code, the logs, and the compiler's version.
#[derive(Clone, Debug)]
pub struct ResponseError {
    pub status_code: u16,
    pub logs: Vec<LogEntry>,
    pub cairo_lang_compiler_version: String,
}

/// Why a compile-and-run request failed, as far as the error document tells.
#[derive(Clone, Debug)]
pub enum RunError {
    /// The compiler reported these diagnostics.
    DiagnosticsError(Vec<String>),
    /// The program was given the wrong number of arguments.
    ArgumentsSizeMismatch { expected: usize, actual: usize },
    /// Any other failure of the toolchain.
    Other,
}

pub open spec fn is_prefix(prefix: Seq<char>, s: Seq<char>) -> bool {
    prefix.len() <= s.len() && s.subrange(0, prefix.len() as int) == prefix
}

/// The kind of a diagnostic, read from how its text begins.
pub open spec fn log_type_of(message: Seq<char>) -> LogType {
    if is_prefix("error"@, message) {
        LogType::Error
    } else if is_prefix("warning"@, message) {
        LogType::Warn
    } else {
        LogType::Info
    }
}

pub open spec fn digit_char(d: nat) -> char {
    seq!['0', '1', '2', '3', '4', '5', '6', '7', '8', '9'][d as int]
}

/// Decimal digits of `n`, most significant first, without leading zeros.
pub open spec fn decimal(n: nat) -> Seq<char>
    decreases n,
{
    if n < 10 {
        seq![digit_char(n)]
    } else {
        decimal(n / 10).push(digit_char(n % 10))
    }
}

pub open spec fn argument_count_text(expected: nat, actual: nat) -> Seq<char> {
    "invalid argument count: expected "@ + decimal(expected) + ", found "@ + decimal(actual)
}

pub open spec fn default_message() -> Seq<char> {
    "failed to compile and run cairo program"@
}

/// Relies on `str::starts_with` with a string pattern.
#[verifier::external_body]
fn starts_with(s: &str, prefix: &str) -> (r: bool)
    ensures
        r == is_prefix(prefix@, s@),
{
    s.starts_with(prefix)
}

/// Relies on `format!` writing a `usize` in decimal.
#[verifier::external_body]
fn argument_count_message(expected: usize, actual: usize) -> (r: String)
    ensures
        r@ == argument_count_text(expected as nat, actual as nat),
{
    format!("invalid argument count: expected {}, found {}", expected, actual)
}

impl LogEntry {
    pub fn new(log_type: LogType, message: String) -> (r: Self)
        ensures
            r.log_type == log_type,
            r.message == message,
    {
        Self { log_type, message }
    }
}

impl Default for LogEntry {
    fn default() -> (r: Self)
        ensures
            r.log_type == LogType::Error,
            r.message@ == default_message(),
    {
        Self { log_type: LogType::Error, message: "failed to compile and run cairo program".to_string() }
    }
}

impl ResponseError {
    /// Error document with the standard status code and the given logs.
    pub fn new(errors: Vec<LogEntry>, compiler_version: String) -> (r: Self)
        ensures
            r.status_code == EXPECTATION_FAILED,
            r.logs == errors,
            r.cairo_lang_compiler_version == compiler_version,
    {
        Self {
            status_code: EXPECTATION_FAILED,
            logs: errors,
            cairo_lang_compiler_version: compiler_version,
        }
    }

    /// The error document for a failed run: the diagnostics as logs, a message
    /// on an argument count mismatch, or the default entry otherwise.
    pub fn get_error(error: RunError, compiler_version: String) -> (r: Self)
        ensures
            r.status_code == EXPECTATION_FAILED,
            r.cairo_lang_compiler_version == compiler_version,
            match error {
                RunError::DiagnosticsError(d) => logs_match_diagnostics(r.logs@, d@),
                RunError::ArgumentsSizeMismatch { expected, actual } => {
                    &&& r.logs.len() == 1
                    &&& r.logs[0].log_type == LogType::Error
                    &&& r.logs[0].message@ == argument_count_text(expected as nat, actual as nat)
                },
                RunError::Other => {
                    &&& r.logs.len() == 1
                    &&& r.logs[0].log_type == LogType::Error
                    &&& r.logs[0].message@ == default_message()
                },
            },
    {
        match error {
            RunError::DiagnosticsError(diagnostics) => build_diagnostics_response_error(
                diagnostics,
                compiler_version,
            ),
            RunError::ArgumentsSizeMismatch { expected, actual } => {
                let entry = LogEntry::new(LogType::Error, argument_count_message(expected, actual));
                ResponseError::new(vec![entry], compiler_version)
            },
            RunError::Other => ResponseError::new(vec![LogEntry::default()], compiler_version),
        }
    }
}

/// `logs` has one entry per diagnostic, in order, holding its text and its kind.
pub open spec fn logs_match_diagnostics(logs: Seq<LogEntry>, diagnostics: Seq<String>) -> bool {
    &&& logs.len() == diagnostics.len()
    &&& forall|i: int|
        0 <= i < logs.len() ==> {
            &&& #[trigger] logs[i].message@ == diagnostics[i]@
            &&& logs[i].log_type == log_type_of(diagnostics[i]@)
        }
}

/// Converts diagnostics to log entries, classified by how each begins.
pub fn build_log_entry_from_diagnostics(diagnostics: Vec<String>) -> (r: Vec<LogEntry>)
    ensures
        logs_match_diagnostics(r@, diagnostics@),
{
    let mut logs: Vec<LogEntry> = Vec::new();
    let n = diagnostics.len();
    let mut i: usize = 0;
    while i < n
        invariant
            n == diagnostics.len(),
            i <= n,
            logs_match_diagnostics(logs@, diagnostics@.subrange(0, i as int)),
        decreases n - i,
    {
        let message = diagnostics[i].clone();
        let log_type = if starts_with(message.as_str(), "error") {
            LogType::Error
        } else if starts_with(message.as_str(), "warning") {
            LogType::Warn
        } else {
            LogType::Info
        };
        logs.push(LogEntry::new(log_type, message));
        i = i + 1;
    }
    assert(diagnostics@.subrange(0, n as int) == diagnostics@);
    logs
}

/// Builds the error document from a set of diagnostics.
pub fn build_diagnostics_response_error(diagnostics: Vec<String>, compiler_version: String) -> (r:
    ResponseError)
    ensures
        r.status_code == EXPECTATION_FAILED,
        r.cairo_lang_compiler_version == compiler_version,
        logs_match_diagnostics(r.logs@, diagnostics@),
{
    let errors = build_log_entry_from_diagnostics(diagnostics);
    ResponseError::new(errors, compiler_version)
}

} // verus!
