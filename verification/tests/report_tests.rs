use rudder_lang::logger::Logger;
use rudder_lang::report::{ActionResult, Output, WorkOutcome};

fn record(dest: Option<&str>) -> ActionResult {
    ActionResult { destination: dest.map(|d| d.to_string()) }
}

#[test]
fn terminal_success_lists_written_destinations() {
    let outcome = WorkOutcome::Success(vec![record(Some("a.txt")), record(Some("b.txt"))]);
    let out = Output::Terminal.render("compile", "source.rf", &outcome, &Logger::init(),
        Some(0));
    assert_eq!(out, "'a.txt', 'b.txt' written");
}

#[test]
fn terminal_failure_names_the_source() {
    let outcome = WorkOutcome::Failure(vec!["bad input".to_string()]);
    let out = Output::Terminal.render("compile", "foo.conf", &outcome, &Logger::init(),
        Some(0));
    assert_eq!(out, "An error occurred, could not create  from 'foo.conf'");
}

#[test]
fn terminal_success_skips_records_without_destination() {
    let outcome = WorkOutcome::Success(vec![record(None), record(Some("x.cf"))]);
    let out = Output::Terminal.render("compile", "s", &outcome, &Logger::init(), None);
    assert_eq!(out, "'x.cf' written");
}

#[test]
fn terminal_success_with_no_records() {
    let outcome = WorkOutcome::Success(vec![]);
    let out = Output::Terminal.render("compile", "s", &outcome, &Logger::init(), None);
    assert_eq!(out, " written");
}

#[test]
fn structured_success_parses_with_success_status() {
    let outcome = WorkOutcome::Success(vec![record(Some("a.txt"))]);
    let out = Output::JSON.render("compile", "source.rf", &outcome, &Logger::init(),
        Some(1234567890123));
    let v: serde_json::Value = serde_json::from_str(&out).expect("valid JSON");
    assert_eq!(v["status"], "success");
    assert_eq!(v["action"], "compile");
    assert_eq!(v["source"], "source.rf");
    assert_eq!(v["time"], "1234567890123");
    assert_eq!(v["data"][0]["destination"], "a.txt");
    assert_eq!(v["errors"].as_array().unwrap().len(), 0);
}

#[test]
fn structured_failure_parses_with_failure_status() {
    let outcome = WorkOutcome::Failure(vec!["first error".to_string(), "second".to_string()]);
    let out = Output::JSON.render("compile", "foo.conf", &outcome, &Logger::init(), None);
    let v: serde_json::Value = serde_json::from_str(&out).expect("valid JSON");
    assert_eq!(v["status"], "failure");
    assert_eq!(v["time"], "could not get correct time");
    assert_eq!(v["errors"][0], "first error");
    assert_eq!(v["errors"][1], "second");
    assert_eq!(v["data"].as_array().unwrap().len(), 0);
}

#[test]
fn structured_report_replays_logs_in_insertion_order() {
    let mut logs = Logger::init();
    logs.info("starting".to_string());
    logs.warn("odd input".to_string());
    logs.error("gave up".to_string());
    let outcome = WorkOutcome::Failure(vec!["e".to_string()]);
    let out = Output::JSON.render("compile", "s", &outcome, &logs, Some(7));
    let v: serde_json::Value = serde_json::from_str(&out).expect("valid JSON");
    let arr = v["logs"].as_array().unwrap();
    assert_eq!(arr.len(), 3);
    assert_eq!(arr[0][0], "info");
    assert_eq!(arr[0][1], "starting");
    assert_eq!(arr[1][0], "warn");
    assert_eq!(arr[1][1], "odd input");
    assert_eq!(arr[2][0], "error");
    assert_eq!(arr[2][1], "gave up");
}

#[test]
fn terminal_report_never_shows_buffered_logs() {
    let mut logs = Logger::init();
    logs.info("BUFFERED-LOG-LINE".to_string());
    let outcome = WorkOutcome::Success(vec![record(Some("a.txt"))]);
    let out = Output::Terminal.render("compile", "s", &outcome, &logs, Some(0));
    assert!(!out.contains("BUFFERED-LOG-LINE"));
    assert_eq!(out, "'a.txt' written");
}

#[test]
fn structured_report_escapes_awkward_text() {
    let mut logs = Logger::init();
    logs.debug("line one\nline \"two\"\t\\end".to_string());
    let outcome = WorkOutcome::Failure(vec!["quote \" and \u{1}control".to_string()]);
    let out = Output::JSON.render("a\"b", "pa\\th", &outcome, &logs, None);
    let v: serde_json::Value = serde_json::from_str(&out).expect("valid JSON");
    assert_eq!(v["action"], "a\"b");
    assert_eq!(v["source"], "pa\\th");
    assert_eq!(v["logs"][0][1], "line one\nline \"two\"\t\\end");
    assert_eq!(v["errors"][0], "quote \" and \u{1}control");
}
