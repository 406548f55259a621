//! Diagnostic reporting for a command-line tool: an append-only log buffer,
//! a normalizer for raw crash messages, a call-stack formatter, a crash
//! interceptor modelled as an explicit install-once handle, and a report
//! emitter with a terminal mode and a machine-readable structured mode.

pub mod crash;
pub mod json;
pub mod logger;
pub mod normalize;
pub mod report;
pub mod stack;
pub mod text;
