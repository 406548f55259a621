//! The report emitter: one unit of work ends in a `WorkOutcome`, and the
//! outcome plus the buffered logs are rendered either as one terminal line
//! or as a machine-readable structured (JSON) document. The buffered logs
//! appear, verbatim and in order, only in the structured document.

use vstd::prelude::*;
use crate::logger::{Severity, Logger};
use crate::json::{json_string, json_string_into};
use crate::text::{dec_rep, push_u64_dec, str_chars, chars_to_string, push_all};

verus! {

/// The configured output mode: human-readable terminal lines, or the
/// machine-readable structured document.
#[derive(Clone, Copy, PartialEq, Eq, Structural, Debug)]
pub enum Output {
    Terminal,
    JSON,
}

/// One result record of a completed unit of work, as handed in by the
/// work-execution layer; only its optional destination is read here.
pub struct ActionResult {
    pub destination: Option<String>,
}

impl View for ActionResult {
    type V = Option<Seq<char>>;

    open spec fn view(&self) -> Option<Seq<char>> {
        match self.destination {
            Some(d) => Some(d@),
            None => None,
        }
    }
}

/// The mathematical shape of an outcome: destinations on success, error
/// strings on failure.
pub enum OutcomeView {
    Success(Seq<Option<Seq<char>>>),
    Failure(Seq<Seq<char>>),
}

/// The outcome of one unit of work, supplied by the caller: result records
/// on success, cleaned error strings on failure.
pub enum WorkOutcome {
    Success(Vec<ActionResult>),
    Failure(Vec<String>),
}

impl View for WorkOutcome {
    type V = OutcomeView;

    open spec fn view(&self) -> OutcomeView {
        match self {
            WorkOutcome::Success(d) => OutcomeView::Success(
                d@.map_values(|r: ActionResult| r@),
            ),
            WorkOutcome::Failure(e) => OutcomeView::Failure(e@.map_values(|s: String| s@)),
        }
    }
}

/// The name under which a severity appears in a structured report.
pub open spec fn severity_name(s: Severity) -> Seq<char> {
    match s {
        Severity::Trace => "trace"@,
        Severity::Debug => "debug"@,
        Severity::Info => "info"@,
        Severity::Warn => "warn"@,
        Severity::Error => "error"@,
    }
}

/// The status field of a structured report.
pub open spec fn status_of(o: OutcomeView) -> Seq<char> {
    if o is Success {
        "success"@
    } else {
        "failure"@
    }
}

/// The time field: epoch milliseconds, or the fallback wording when the
/// clock was unavailable.
pub open spec fn time_text(clock: Option<u64>) -> Seq<char> {
    match clock {
        Some(ms) => dec_rep(ms as int),
        None => "could not get correct time"@,
    }
}

/// `items`, joined with `, `.
pub open spec fn items_join(items: Seq<Seq<char>>) -> Seq<char>
    decreases items.len(),
{
    if items.len() == 0 {
        Seq::empty()
    } else if items.len() == 1 {
        items[0]
    } else {
        items_join(items.drop_last()) + ", "@ + items.last()
    }
}

/// One buffered log event as a two-element JSON array.
pub open spec fn log_entry_json(e: (Severity, Seq<char>)) -> Seq<char> {
    "["@ + json_string(severity_name(e.0)) + ", "@ + json_string(e.1) + "]"@
}

/// The logs field: every buffered event, in insertion order.
pub open spec fn logs_json(logs: Seq<(Severity, Seq<char>)>) -> Seq<char> {
    "["@ + items_join(logs.map_values(|e: (Severity, Seq<char>)| log_entry_json(e))) + "]"@
}

/// One result record as a JSON object.
pub open spec fn record_json(d: Option<Seq<char>>) -> Seq<char> {
    "{\"destination\": "@ + (match d {
        Some(x) => json_string(x),
        None => "null"@,
    }) + "}"@
}

/// The data field of a structured report.
pub open spec fn data_json(ds: Seq<Option<Seq<char>>>) -> Seq<char> {
    "["@ + items_join(ds.map_values(|d: Option<Seq<char>>| record_json(d))) + "]"@
}

/// The errors field of a structured report.
pub open spec fn errors_json(es: Seq<Seq<char>>) -> Seq<char> {
    "["@ + items_join(es.map_values(|e: Seq<char>| json_string(e))) + "]"@
}

/// The result records shown for an outcome: none on failure.
pub open spec fn outcome_data(o: OutcomeView) -> Seq<Option<Seq<char>>> {
    match o {
        OutcomeView::Success(d) => d,
        OutcomeView::Failure(_) => Seq::empty(),
    }
}

/// The error strings shown for an outcome: none on success.
pub open spec fn outcome_errors(o: OutcomeView) -> Seq<Seq<char>> {
    match o {
        OutcomeView::Success(_) => Seq::empty(),
        OutcomeView::Failure(e) => e,
    }
}

/// The complete structured report document.
pub open spec fn structured_report(
    action: Seq<char>,
    source: Seq<char>,
    o: OutcomeView,
    logs: Seq<(Severity, Seq<char>)>,
    clock: Option<u64>,
) -> Seq<char> {
    "{\n  \"action\": "@ + json_string(action)
    + ",\n  \"time\": "@ + json_string(time_text(clock))
    + ",\n  \"status\": "@ + json_string(status_of(o))
    + ",\n  \"source\": "@ + json_string(source)
    + ",\n  \"logs\": "@ + logs_json(logs)
    + ",\n  \"data\": "@ + data_json(outcome_data(o))
    + ",\n  \"errors\": "@ + errors_json(outcome_errors(o))
    + "\n}"@
}

/// The destinations carried by the result records, each in single quotes,
/// in record order; records without a destination are skipped.
pub open spec fn dest_items(ds: Seq<Option<Seq<char>>>) -> Seq<Seq<char>>
    decreases ds.len(),
{
    if ds.len() == 0 {
        Seq::empty()
    } else {
        dest_items(ds.drop_last()) + (match ds.last() {
            Some(d) => seq!["'"@ + d + "'"@],
            None => Seq::<Seq<char>>::empty(),
        })
    }
}

/// The one terminal line: the artifacts written on success, the failed
/// source on failure. Buffered logs never appear here.
pub open spec fn terminal_report(source: Seq<char>, o: OutcomeView) -> Seq<char> {
    match o {
        OutcomeView::Success(ds) => items_join(dest_items(ds)) + " written"@,
        OutcomeView::Failure(_) => "An error occurred, could not create  from '"@ + source
            + "'"@,
    }
}

/// What one report cycle prints, by output mode.
pub open spec fn report_text(
    mode: Output,
    action: Seq<char>,
    source: Seq<char>,
    o: OutcomeView,
    logs: Seq<(Severity, Seq<char>)>,
    clock: Option<u64>,
) -> Seq<char> {
    match mode {
        Output::JSON => structured_report(action, source, o, logs, clock),
        Output::Terminal => terminal_report(source, o),
    }
}

/// The severity's name, executable.
fn severity_str(s: Severity) -> (r: &'static str)
    ensures
        r@ == severity_name(s),
{
    match s {
        Severity::Trace => "trace",
        Severity::Debug => "debug",
        Severity::Info => "info",
        Severity::Warn => "warn",
        Severity::Error => "error",
    }
}

/// Append `items`, joined with `, `, to `out`.
fn join_push(out: &mut Vec<char>, items: &Vec<Vec<char>>)
    ensures
        final(out)@ == old(out)@ + items_join(items@.map_values(|v: Vec<char>| v@)),
{
    let n = items.len();
    let sep = str_chars(", ");
    proof {
        assert(out@ =~= old(out)@ + items_join(
            items@.map_values(|v: Vec<char>| v@).subrange(0, 0)));
    }
    let mut k: usize = 0;
    while k < n
        invariant
            k <= n == items@.len(),
            sep@ == ", "@,
            out@ == old(out)@ + items_join(items@.map_values(|v: Vec<char>| v@).subrange(
                0, k as int)),
        decreases n - k,
    {
        if k > 0 {
            push_all(out, &sep);
        }
        push_all(out, &items[k]);
        k += 1;
        proof {
            let deep = items@.map_values(|v: Vec<char>| v@);
            let pre = deep.subrange(0, k as int);
            assert(pre.drop_last() =~= deep.subrange(0, k - 1));
            assert(pre.last() == deep[k - 1]);
            assert(out@ =~= old(out)@ + items_join(pre));
        }
    }
    proof {
        let deep = items@.map_values(|v: Vec<char>| v@);
        assert(deep.subrange(0, n as int) =~= deep);
    }
}

/// The rendered log entries, in buffer order.
fn logs_items_exec(logs: &Logger) -> (items: Vec<Vec<char>>)
    ensures
        items@.map_values(|v: Vec<char>| v@) == logs@.map_values(
            |e: (Severity, Seq<char>)| log_entry_json(e)),
{
    let n = logs.len();
    let mut items: Vec<Vec<char>> = Vec::new();
    let mut k: usize = 0;
    while k < n
        invariant
            k <= n == logs@.len(),
            items@.len() == k,
            forall|t: int| 0 <= t < k ==> items@[t]@ == log_entry_json(logs@[t]),
        decreases n - k,
    {
        let e = logs.entry(k);
        let mut item: Vec<char> = Vec::new();
        let open = str_chars("[");
        push_all(&mut item, &open);
        let sev = str_chars(severity_str(e.0));
        json_string_into(&mut item, &sev);
        let sep = str_chars(", ");
        push_all(&mut item, &sep);
        let msg = str_chars(e.1.as_str());
        json_string_into(&mut item, &msg);
        let close = str_chars("]");
        push_all(&mut item, &close);
        proof {
            assert(item@ =~= log_entry_json(logs@[k as int]));
        }
        items.push(item);
        k += 1;
    }
    proof {
        assert(items@.map_values(|v: Vec<char>| v@) =~= logs@.map_values(
            |e: (Severity, Seq<char>)| log_entry_json(e)));
    }
    items
}

/// The rendered result records, in record order.
fn data_items_exec(ds: &Vec<ActionResult>) -> (items: Vec<Vec<char>>)
    ensures
        items@.map_values(|v: Vec<char>| v@) == ds@.map_values(
            |r: ActionResult| record_json(r@)),
{
    let n = ds.len();
    let mut items: Vec<Vec<char>> = Vec::new();
    let mut k: usize = 0;
    while k < n
        invariant
            k <= n == ds@.len(),
            items@.len() == k,
            forall|t: int| 0 <= t < k ==> items@[t]@ == record_json(ds@[t]@),
        decreases n - k,
    {
        let mut item: Vec<char> = Vec::new();
        let open = str_chars("{\"destination\": ");
        push_all(&mut item, &open);
        match &ds[k].destination {
            Some(d) => {
                let dv = str_chars(d.as_str());
                json_string_into(&mut item, &dv);
            },
            None => {
                let nl = str_chars("null");
                push_all(&mut item, &nl);
            },
        }
        let close = str_chars("}");
        push_all(&mut item, &close);
        proof {
            assert(item@ =~= record_json(ds@[k as int]@));
        }
        items.push(item);
        k += 1;
    }
    proof {
        assert(items@.map_values(|v: Vec<char>| v@) =~= ds@.map_values(
            |r: ActionResult| record_json(r@)));
    }
    items
}

/// The rendered error strings, in order.
fn errors_items_exec(es: &Vec<String>) -> (items: Vec<Vec<char>>)
    ensures
        items@.map_values(|v: Vec<char>| v@) == es@.map_values(|s: String| json_string(s@)),
{
    let n = es.len();
    let mut items: Vec<Vec<char>> = Vec::new();
    let mut k: usize = 0;
    while k < n
        invariant
            k <= n == es@.len(),
            items@.len() == k,
            forall|t: int| 0 <= t < k ==> items@[t]@ == json_string(es@[t]@),
        decreases n - k,
    {
        let mut item: Vec<char> = Vec::new();
        let sv = str_chars(es[k].as_str());
        json_string_into(&mut item, &sv);
        proof {
            assert(item@ =~= json_string(es@[k as int]@));
        }
        items.push(item);
        k += 1;
    }
    proof {
        assert(items@.map_values(|v: Vec<char>| v@) =~= es@.map_values(
            |s: String| json_string(s@)));
    }
    items
}

/// The quoted destinations of the result records, in record order.
fn dest_items_exec(ds: &Vec<ActionResult>) -> (items: Vec<Vec<char>>)
    ensures
        items@.map_values(|v: Vec<char>| v@) == dest_items(ds@.map_values(
            |r: ActionResult| r@)),
{
    let n = ds.len();
    let mut items: Vec<Vec<char>> = Vec::new();
    proof {
        assert(items@.map_values(|v: Vec<char>| v@) =~= dest_items(ds@.map_values(
            |r: ActionResult| r@).subrange(0, 0)));
    }
    let mut k: usize = 0;
    while k < n
        invariant
            k <= n == ds@.len(),
            items@.map_values(|v: Vec<char>| v@) == dest_items(ds@.map_values(
                |r: ActionResult| r@).subrange(0, k as int)),
        decreases n - k,
    {
        match &ds[k].destination {
            Some(d) => {
                let mut item: Vec<char> = Vec::new();
                let q1 = str_chars("'");
                push_all(&mut item, &q1);
                let dv = str_chars(d.as_str());
                push_all(&mut item, &dv);
                push_all(&mut item, &q1);
                proof {
                    assert(item@ =~= "'"@ + ds@[k as int]@->Some_0 + "'"@);
                }
                items.push(item);
            },
            None => {},
        }
        k += 1;
        proof {
            let mapped = ds@.map_values(|r: ActionResult| r@);
            let pre = mapped.subrange(0, k as int);
            assert(pre.drop_last() =~= mapped.subrange(0, k - 1));
            assert(pre.last() == ds@[k - 1]@);
            assert(items@.map_values(|v: Vec<char>| v@) =~= dest_items(pre));
        }
    }
    proof {
        let mapped = ds@.map_values(|r: ActionResult| r@);
        assert(mapped.subrange(0, n as int) =~= mapped);
    }
    items
}

impl Output {
    /// Render the one report of a unit of work: the structured document in
    /// `JSON` mode, the single summary line in `Terminal` mode. `clock` is
    /// the current time in epoch milliseconds, if one could be read.
    #[verifier::rlimit(80)]
    pub fn render(
        self,
        action: &str,
        source: &str,
        outcome: &WorkOutcome,
        logs: &Logger,
        clock: Option<u64>,
    ) -> (r: String)
        ensures
            r@ == report_text(self, action@, source@, outcome@, logs@, clock),
    {
        match self {
            Output::Terminal => {
                let mut out: Vec<char> = Vec::new();
                match outcome {
                    WorkOutcome::Success(ds) => {
                        let items = dest_items_exec(ds);
                        join_push(&mut out, &items);
                        let w = str_chars(" written");
                        push_all(&mut out, &w);
                    },
                    WorkOutcome::Failure(_) => {
                        let head = str_chars("An error occurred, could not create  from '");
                        push_all(&mut out, &head);
                        let sv = str_chars(source);
                        push_all(&mut out, &sv);
                        let q = str_chars("'");
                        push_all(&mut out, &q);
                    },
                }
                proof {
                    assert(out@ =~= terminal_report(source@, outcome@));
                }
                chars_to_string(&out)
            },
            Output::JSON => {
                let mut out: Vec<char> = Vec::new();
                let p1 = str_chars("{\n  \"action\": ");
                push_all(&mut out, &p1);
                let av = str_chars(action);
                json_string_into(&mut out, &av);
                let p2 = str_chars(",\n  \"time\": ");
                push_all(&mut out, &p2);
                let mut tv: Vec<char> = Vec::new();
                match clock {
                    Some(ms) => {
                        push_u64_dec(&mut tv, ms);
                    },
                    None => {
                        let fb = str_chars("could not get correct time");
                        push_all(&mut tv, &fb);
                    },
                }
                proof {
                    assert(tv@ =~= time_text(clock));
                }
                json_string_into(&mut out, &tv);
                let p3 = str_chars(",\n  \"status\": ");
                push_all(&mut out, &p3);
                let st = match outcome {
                    WorkOutcome::Success(_) => str_chars("success"),
                    WorkOutcome::Failure(_) => str_chars("failure"),
                };
                json_string_into(&mut out, &st);
                let p4 = str_chars(",\n  \"source\": ");
                push_all(&mut out, &p4);
                let sv = str_chars(source);
                json_string_into(&mut out, &sv);
                let p5 = str_chars(",\n  \"logs\": ");
                push_all(&mut out, &p5);
                let ob = str_chars("[");
                let cb = str_chars("]");
                push_all(&mut out, &ob);
                let litems = logs_items_exec(logs);
                join_push(&mut out, &litems);
                push_all(&mut out, &cb);
                let p6 = str_chars(",\n  \"data\": ");
                push_all(&mut out, &p6);
                push_all(&mut out, &ob);
                let ditems = match outcome {
                    WorkOutcome::Success(ds) => data_items_exec(ds),
                    WorkOutcome::Failure(_) => Vec::new(),
                };
                proof {
                    assert(ditems@.map_values(|v: Vec<char>| v@) =~= outcome_data(
                        outcome@).map_values(|d: Option<Seq<char>>| record_json(d)));
                }
                join_push(&mut out, &ditems);
                push_all(&mut out, &cb);
                let p7 = str_chars(",\n  \"errors\": ");
                push_all(&mut out, &p7);
                push_all(&mut out, &ob);
                let eitems = match outcome {
                    WorkOutcome::Success(_) => Vec::new(),
                    WorkOutcome::Failure(es) => errors_items_exec(es),
                };
                proof {
                    assert(eitems@.map_values(|v: Vec<char>| v@) =~= outcome_errors(
                        outcome@).map_values(|e: Seq<char>| json_string(e)));
                }
                join_push(&mut out, &eitems);
                push_all(&mut out, &cb);
                let p8 = str_chars("\n}");
                push_all(&mut out, &p8);
                proof {
                    assert(out@ =~= structured_report(action@, source@, outcome@, logs@,
                        clock));
                }
                chars_to_string(&out)
            },
        }
    }
}

/// Law: the status field reads `success` exactly when the outcome was a
/// success.
pub proof fn lemma_status_success_iff(o: OutcomeView)
    ensures
        (status_of(o) == "success"@) <==> (o is Success),
{
    reveal_strlit("success");
    reveal_strlit("failure");
    if !(o is Success) {
        assert("failure"@[0] == 'f' && "success"@[0] == 's');
        assert(status_of(o) != "success"@);
    }
}

/// Law: a terminal-mode report does not depend on the log buffer at all;
/// no buffered message can appear in it.
pub proof fn lemma_terminal_ignores_logs(
    action: Seq<char>,
    source: Seq<char>,
    o: OutcomeView,
    logs1: Seq<(Severity, Seq<char>)>,
    logs2: Seq<(Severity, Seq<char>)>,
    clock1: Option<u64>,
    clock2: Option<u64>,
)
    ensures
        report_text(Output::Terminal, action, source, o, logs1, clock1) == report_text(
            Output::Terminal, action, source, o, logs2, clock2),
{
}

/// Law: appending one event to the buffer appends exactly one rendered
/// entry at the end of the logs field, so the structured report reproduces
/// the buffered sequence verbatim and in insertion order.
pub proof fn lemma_logs_render_in_order(logs: Seq<(Severity, Seq<char>)>, e: (Severity, Seq<char>))
    ensures
        logs.len() == 0 ==> logs_json(logs.push(e)) == "["@ + log_entry_json(e) + "]"@,
        logs.len() > 0 ==> logs_json(logs.push(e)) == "["@ + items_join(
            logs.map_values(|x: (Severity, Seq<char>)| log_entry_json(x))) + ", "@
            + log_entry_json(e) + "]"@,
{
    let f = |x: (Severity, Seq<char>)| log_entry_json(x);
    let mapped = logs.push(e).map_values(f);
    assert(mapped.drop_last() =~= logs.map_values(f));
    assert(mapped.last() == log_entry_json(e));
    if logs.len() == 0 {
        assert(mapped.len() == 1);
        assert(mapped[0] == log_entry_json(e));
    }
}

} // verus!
