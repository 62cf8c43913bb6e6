use tracer::logs::{
    build_diagnostics_response_error, build_log_entry_from_diagnostics, LogEntry, LogType,
    ResponseError, RunError, EXPECTATION_FAILED,
};

#[test]
fn diagnostics_are_classified() {
    let logs = build_log_entry_from_diagnostics(vec![
        "error: unknown identifier".to_string(),
        "warning: unused variable".to_string(),
        "note: see here".to_string(),
        "Error in caps".to_string(),
    ]);
    assert_eq!(logs.len(), 4);
    assert_eq!(logs[0].log_type, LogType::Error);
    assert_eq!(logs[1].log_type, LogType::Warn);
    assert_eq!(logs[2].log_type, LogType::Info);
    assert_eq!(logs[3].log_type, LogType::Info);
    assert_eq!(logs[1].message, "warning: unused variable");
}

#[test]
fn default_log_entry() {
    let e = LogEntry::default();
    assert_eq!(e.log_type, LogType::Error);
    assert_eq!(e.message, "failed to compile and run cairo program");
}

#[test]
fn argument_mismatch_error() {
    let r = ResponseError::get_error(
        RunError::ArgumentsSizeMismatch { expected: 2, actual: 13 },
        "2.21.0".to_string(),
    );
    assert_eq!(r.status_code, EXPECTATION_FAILED);
    assert_eq!(r.status_code, 417);
    assert_eq!(r.logs.len(), 1);
    assert_eq!(r.logs[0].message, "invalid argument count: expected 2, found 13");
    assert_eq!(r.cairo_lang_compiler_version, "2.21.0");
}

#[test]
fn other_error_uses_default_entry() {
    let r = ResponseError::get_error(RunError::Other, "v".to_string());
    assert_eq!(r.logs.len(), 1);
    assert_eq!(r.logs[0].message, "failed to compile and run cairo program");
}

#[test]
fn diagnostics_error() {
    let r = ResponseError::get_error(
        RunError::DiagnosticsError(vec!["warning: x".to_string()]),
        "v".to_string(),
    );
    assert_eq!(r.logs.len(), 1);
    assert_eq!(r.logs[0].log_type, LogType::Warn);
    let r2 = build_diagnostics_response_error(vec!["error: y".to_string()], "v".to_string());
    assert_eq!(r2.logs[0].log_type, LogType::Error);
    assert_eq!(r2.status_code, 417);
}
