//! The crash interceptor: an install-once handle that turns one
//! unrecoverable failure into exactly one crash report. The process-wide
//! failure hook is modelled as this explicit handle: it is created at
//! bootstrap, and the first failure moves it to its terminal `Reporting`
//! state; any later failure produces nothing.

use vstd::prelude::*;
use colored::Colorize;
use crate::json::json_string;
use crate::normalize::{normalize, normalize_spec};
use crate::report::Output;
use crate::stack::{Backtrace, SymView, render_trace_spec};
use crate::text::{dec_rep, push_u64_dec, str_chars, chars_to_string, push_all};

verus! {

/// What a failure hands over: either a preformatted text payload, or the
/// failure's default description, which is normalized before display.
pub enum PanicPayload {
    Text(String),
    Described(String),
}

/// The message a payload contributes to the crash report.
pub open spec fn payload_message(p: PanicPayload) -> Seq<char> {
    match p {
        PanicPayload::Text(s) => s@,
        PanicPayload::Described(d) => normalize_spec(d@),
    }
}

/// The location fragment: ` at 'file:line'`, or nothing.
pub open spec fn location_text(loc: Option<(String, u32)>) -> Seq<char> {
    match loc {
        Some(fl) => " at '"@ + fl.0@ + ":"@ + dec_rep(fl.1 as int) + "'"@,
        None => Seq::empty(),
    }
}

/// The composed human-readable crash message.
pub open spec fn crash_message(
    tag: Seq<char>,
    loc: Seq<char>,
    msg: Seq<char>,
    trace: Seq<char>,
) -> Seq<char> {
    tag + ": an unrecoverable error occurred"@ + loc + ": "@ + msg + trace
}

/// The status field of the crash document.
pub open spec fn crash_status(action: Seq<char>) -> Seq<char> {
    "rudderc "@ + action + ": unrecoverable error"@
}

/// The standalone crash document of structured mode: deliberately a
/// different shape from the structured report of a completed unit of work.
pub open spec fn crash_doc(action: Seq<char>, message: Seq<char>) -> Seq<char> {
    "{\n  \"result\": {\n    \"status\": "@ + json_string(crash_status(action))
        + ",\n    \"message\": "@ + json_string(message) + "\n  }\n}"@
}

/// What the hook emits, by output mode.
pub open spec fn crash_output(mode: Output, action: Seq<char>, message: Seq<char>) -> Seq<char> {
    match mode {
        Output::JSON => crash_doc(action, message),
        Output::Terminal => message,
    }
}

/// The styled tag embeds the plain tag verbatim.
pub open spec fn tag_shows_failure(tag: Seq<char>) -> bool {
    exists|pre: Seq<char>, suf: Seq<char>| tag == pre + "rudderc failure"@ + suf
}

/// The trace fragment: empty when capture is disabled, a rendered capture
/// otherwise.
pub open spec fn trace_text_ok(enabled: bool, trace: Seq<char>) -> bool {
    if enabled {
        exists|frames: Seq<Seq<SymView>>| trace == render_trace_spec(frames)
    } else {
        trace == Seq::<char>::empty()
    }
}

/// The states of the failure hook: installed and waiting, or already
/// reporting (terminal; the process exits right after).
#[derive(Clone, Copy, PartialEq, Eq, Structural, Debug)]
pub enum HookState {
    Installed,
    Reporting,
}

/// How one failure event moves the hook: only the first ever fires.
pub open spec fn hook_transition(pre: HookState, post: HookState, fired: bool) -> bool {
    match pre {
        HookState::Installed => post is Reporting && fired,
        HookState::Reporting => post is Reporting && !fired,
    }
}

/// Law: across any two consecutive failure events, at most one fires, so
/// at most one crash report is ever emitted through one handle.
pub proof fn lemma_report_at_most_once(
    s0: HookState,
    s1: HookState,
    s2: HookState,
    f1: bool,
    f2: bool,
)
    requires
        hook_transition(s0, s1, f1),
        hook_transition(s1, s2, f2),
    ensures
        !(f1 && f2),
{
}

/// Relies on colored's Colorize::red and Colorize::bold and on
/// ColoredString's Display: when styling is off the input is shown as is;
/// when it is on, the input — holding no escape character, so left intact
/// by the inner-reset escaping — is wrapped in a styling prefix and the
/// reset suffix.
#[verifier::external_body]
fn style_tag(s: &str) -> (r: String)
    requires
        forall|k: int| 0 <= k < s@.len() ==> s@[k] != '\u{1b}',
    ensures
        exists|pre: Seq<char>, suf: Seq<char>| r@ == pre + s@ + suf,
{
    format!("{}", s.red().bold())
}

/// The installed failure hook, with the configuration fixed at install
/// time.
pub struct CrashInterceptor {
    state: HookState,
    mode: Output,
    action: String,
    backtrace_enabled: bool,
}

impl CrashInterceptor {
    /// The hook's current state.
    pub closed spec fn state(&self) -> HookState {
        self.state
    }

    /// The configured output mode.
    pub closed spec fn mode(&self) -> Output {
        self.mode
    }

    /// The configured action label.
    pub closed spec fn action(&self) -> Seq<char> {
        self.action@
    }

    /// Whether stack capture was enabled at install time.
    pub closed spec fn backtrace_on(&self) -> bool {
        self.backtrace_enabled
    }

    /// Install the failure hook, once, at process bootstrap.
    pub fn install(mode: Output, action: String, backtrace_enabled: bool) -> (r: CrashInterceptor)
        ensures
            r.state() is Installed,
            r.mode() == mode,
            r.action() == action@,
            r.backtrace_on() == backtrace_enabled,
    {
        CrashInterceptor { state: HookState::Installed, mode, action, backtrace_enabled }
    }

    /// One unrecoverable failure: the first call composes and returns the
    /// one crash report to emit; every later call returns nothing. The
    /// message is the payload's (normalized) text inside the fixed
    /// envelope, with the failure location and, when enabled at install
    /// time, a rendered capture of the current stack.
    pub fn on_failure(&mut self, payload: PanicPayload, location: Option<(String, u32)>) -> (r:
        Option<String>)
        ensures
            hook_transition(old(self).state(), final(self).state(), r is Some),
            final(self).mode() == old(self).mode(),
            final(self).action() == old(self).action(),
            final(self).backtrace_on() == old(self).backtrace_on(),
            match r {
                Some(doc) => exists|tag: Seq<char>, trace: Seq<char>|
                    tag_shows_failure(tag) && trace_text_ok(old(self).backtrace_on(), trace)
                        && doc@ == crash_output(old(self).mode(), old(self).action(),
                        crash_message(tag, location_text(location), payload_message(payload),
                        trace)),
                None => true,
            },
    {
        match self.state {
            HookState::Reporting => None,
            HookState::Installed => {
                self.state = HookState::Reporting;
                let lit = "rudderc failure";
                proof {
                    reveal_strlit("rudderc failure");
                    assert forall|k: int| 0 <= k < lit@.len() implies lit@[k] != '\u{1b}' by {
                        if lit@[k] == '\u{1b}' {
                            assert(false);
                        }
                    }
                }
                let tag = style_tag(lit);
                let msg = match &payload {
                    PanicPayload::Text(s) => s.clone(),
                    PanicPayload::Described(d) => normalize(d.as_str()),
                };
                let trace = if self.backtrace_enabled {
                    Backtrace::new().render()
                } else {
                    String::new()
                };
                let mut mv: Vec<char> = Vec::new();
                let tv = str_chars(tag.as_str());
                push_all(&mut mv, &tv);
                let env = str_chars(": an unrecoverable error occurred");
                push_all(&mut mv, &env);
                match &location {
                    Some(fl) => {
                        let a = str_chars(" at '");
                        push_all(&mut mv, &a);
                        let f = str_chars(fl.0.as_str());
                        push_all(&mut mv, &f);
                        let c = str_chars(":");
                        push_all(&mut mv, &c);
                        push_u64_dec(&mut mv, fl.1 as u64);
                        let q = str_chars("'");
                        push_all(&mut mv, &q);
                    },
                    None => {},
                }
                let sep = str_chars(": ");
                push_all(&mut mv, &sep);
                let mc = str_chars(msg.as_str());
                push_all(&mut mv, &mc);
                let tr = str_chars(trace.as_str());
                push_all(&mut mv, &tr);
                let message = chars_to_string(&mv);
                proof {
                    assert(message@ =~= crash_message(tag@, location_text(location),
                        payload_message(payload), trace@));
                    assert(trace_text_ok(old(self).backtrace_on(), trace@));
                }
                let out = render_crash_output(self.mode, self.action.as_str(),
                    message.as_str());
                Some(out)
            },
        }
    }
}

/// Render what the hook emits: in structured mode the standalone crash
/// document, in terminal mode the composed message itself.
pub fn render_crash_output(mode: Output, action: &str, message: &str) -> (r: String)
    ensures
        r@ == crash_output(mode, action@, message@),
{
    match mode {
        Output::Terminal => {
            let mut out: Vec<char> = Vec::new();
            let m = str_chars(message);
            push_all(&mut out, &m);
            proof {
                assert(out@ =~= message@);
            }
            chars_to_string(&out)
        },
        Output::JSON => {
            let mut out: Vec<char> = Vec::new();
            let p1 = str_chars("{\n  \"result\": {\n    \"status\": ");
            push_all(&mut out, &p1);
            let mut sv: Vec<char> = Vec::new();
            let s1 = str_chars("rudderc ");
            push_all(&mut sv, &s1);
            let av = str_chars(action);
            push_all(&mut sv, &av);
            let s2 = str_chars(": unrecoverable error");
            push_all(&mut sv, &s2);
            proof {
                assert(sv@ =~= crash_status(action@));
            }
            crate::json::json_string_into(&mut out, &sv);
            let p2 = str_chars(",\n    \"message\": ");
            push_all(&mut out, &p2);
            let mv = str_chars(message);
            crate::json::json_string_into(&mut out, &mv);
            let p3 = str_chars("\n  }\n}");
            push_all(&mut out, &p3);
            proof {
                assert(out@ =~= crash_doc(action@, message@));
            }
            chars_to_string(&out)
        },
    }
}

} // verus!
