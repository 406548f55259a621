//! The in-memory log buffer: an ordered, append-only sequence of
//! (severity, message) pairs, consumed only when a structured report is
//! assembled.

use vstd::prelude::*;

verus! {

/// Importance of one buffered log event, from least (`Trace`) to most
/// (`Error`) important.
#[derive(Clone, Copy, PartialEq, Eq, Structural, Debug)]
pub enum Severity {
    Trace,
    Debug,
    Info,
    Warn,
    Error,
}

impl Severity {
    /// Numeric importance; a higher rank means a more important event.
    pub open spec fn rank(self) -> nat {
        match self {
            Severity::Trace => 0,
            Severity::Debug => 1,
            Severity::Info => 2,
            Severity::Warn => 3,
            Severity::Error => 4,
        }
    }

    /// Executable form of `rank`.
    pub fn importance(&self) -> (r: u8)
        ensures
            r as nat == self.rank(),
    {
        match self {
            Severity::Trace => 0,
            Severity::Debug => 1,
            Severity::Info => 2,
            Severity::Warn => 3,
            Severity::Error => 4,
        }
    }
}

/// Append-only buffer of log events, in insertion (= chronological) order.
/// It is created empty for one reporting cycle and embedded verbatim in at
/// most one structured report; it never appears in terminal-mode output.
pub struct Logger {
    entries: Vec<(Severity, String)>,
}

impl View for Logger {
    type V = Seq<(Severity, Seq<char>)>;

    closed spec fn view(&self) -> Seq<(Severity, Seq<char>)> {
        self.entries@.map_values(|e: (Severity, String)| (e.0, e.1@))
    }
}

impl Logger {
    /// A new, empty buffer.
    pub fn init() -> (r: Logger)
        ensures
            r@ == Seq::<(Severity, Seq<char>)>::empty(),
    {
        let r = Logger { entries: Vec::new() };
        proof {
            assert(r@ =~= Seq::<(Severity, Seq<char>)>::empty());
        }
        r
    }

    /// Unconditional, order-preserving insert; there is no size bound, no
    /// deduplication and no removal, and the call always succeeds.
    pub fn append(&mut self, severity: Severity, msg: String)
        ensures
            final(self)@ == old(self)@.push((severity, msg@)),
    {
        let ghost prev = self@;
        self.entries.push((severity, msg));
        proof {
            assert(self@ =~= prev.push((severity, msg@)));
        }
    }

    /// Buffer `msg` at `Info` importance.
    pub fn info(&mut self, msg: String)
        ensures
            final(self)@ == old(self)@.push((Severity::Info, msg@)),
    {
        self.append(Severity::Info, msg);
    }

    /// Buffer `msg` at `Error` importance.
    pub fn error(&mut self, msg: String)
        ensures
            final(self)@ == old(self)@.push((Severity::Error, msg@)),
    {
        self.append(Severity::Error, msg);
    }

    /// Buffer `msg` at `Warn` importance.
    pub fn warn(&mut self, msg: String)
        ensures
            final(self)@ == old(self)@.push((Severity::Warn, msg@)),
    {
        self.append(Severity::Warn, msg);
    }

    /// Buffer `msg` at `Debug` importance.
    pub fn debug(&mut self, msg: String)
        ensures
            final(self)@ == old(self)@.push((Severity::Debug, msg@)),
    {
        self.append(Severity::Debug, msg);
    }

    /// Number of buffered events.
    pub fn len(&self) -> (r: usize)
        ensures
            r == self@.len(),
    {
        self.entries.len()
    }

    /// The `k`-th buffered event, oldest first.
    pub fn entry(&self, k: usize) -> (r: &(Severity, String))
        requires
            k < self@.len(),
        ensures
            r.0 == self@[k as int].0,
            r.1@ == self@[k as int].1,
    {
        &self.entries[k]
    }

    /// Buffer `msg` at `Trace` importance.
    pub fn trace(&mut self, msg: String)
        ensures
            final(self)@ == old(self)@.push((Severity::Trace, msg@)),
    {
        self.append(Severity::Trace, msg);
    }
}

} // verus!
