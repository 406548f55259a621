use rudder_lang::crash::{CrashInterceptor, PanicPayload};
use rudder_lang::logger::{Logger, Severity};
use rudder_lang::report::Output;

#[test]
fn severity_importance_is_ordered() {
    assert!(Severity::Trace.importance() < Severity::Debug.importance());
    assert!(Severity::Debug.importance() < Severity::Info.importance());
    assert!(Severity::Info.importance() < Severity::Warn.importance());
    assert!(Severity::Warn.importance() < Severity::Error.importance());
}

#[test]
fn logger_append_always_succeeds_in_order() {
    let mut logs = Logger::init();
    assert_eq!(logs.len(), 0);
    logs.trace("t".to_string());
    logs.debug("d".to_string());
    logs.append(Severity::Info, "i".to_string());
    assert_eq!(logs.len(), 3);
    assert_eq!(logs.entry(0).1, "t");
    assert_eq!(logs.entry(1).1, "d");
    assert_eq!(logs.entry(2).1, "i");
    assert_eq!(logs.entry(2).0, Severity::Info);
}

#[test]
fn crash_report_fires_at_most_once() {
    let mut hook = CrashInterceptor::install(Output::Terminal, "compile".to_string(), false);
    let first = hook.on_failure(PanicPayload::Text("boom".to_string()), None);
    let second = hook.on_failure(PanicPayload::Text("boom again".to_string()), None);
    assert!(first.is_some());
    assert!(second.is_none());
}

#[test]
fn terminal_crash_message_has_the_fixed_envelope() {
    let mut hook = CrashInterceptor::install(Output::Terminal, "compile".to_string(), false);
    let doc = hook
        .on_failure(
            PanicPayload::Text("boom".to_string()),
            Some(("src/main.rs".to_string(), 7)),
        )
        .unwrap();
    assert!(doc.contains("rudderc failure"));
    assert!(doc.contains(": an unrecoverable error occurred at 'src/main.rs:7': boom"));
    assert!(!doc.contains("Trace:"));
}

#[test]
fn described_payload_is_normalized() {
    let mut hook = CrashInterceptor::install(Output::Terminal, "compile".to_string(), false);
    let doc = hook
        .on_failure(
            PanicPayload::Described("panicked at 'oops', src/x.rs:1:9".to_string()),
            None,
        )
        .unwrap();
    assert!(doc.contains(": an unrecoverable error occurred: oops"));
    assert!(!doc.contains("panicked at"));
}

#[test]
fn structured_crash_document_parses_and_is_shaped_differently() {
    let mut hook = CrashInterceptor::install(Output::JSON, "compile".to_string(), false);
    let doc = hook
        .on_failure(PanicPayload::Text("boom".to_string()), None)
        .unwrap();
    let v: serde_json::Value = serde_json::from_str(&doc).expect("valid JSON");
    assert_eq!(v["result"]["status"], "rudderc compile: unrecoverable error");
    let message = v["result"]["message"].as_str().unwrap();
    assert!(message.contains(": an unrecoverable error occurred: boom"));
    // The crash document has no top-level status: callers tell the two
    // report shapes apart structurally.
    assert!(v.get("status").is_none());
}

#[test]
fn enabled_backtrace_adds_a_trace_section() {
    let mut hook = CrashInterceptor::install(Output::Terminal, "compile".to_string(), true);
    let doc = hook
        .on_failure(PanicPayload::Text("boom".to_string()), None)
        .unwrap();
    assert!(doc.contains("\nTrace:\n"));
}
