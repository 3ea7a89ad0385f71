//! Reports in the form that the journal takes them from a service: a priority in angle
//! brackets, and no time, as the journal has its own.
use vstd::prelude::*;

use crate::text;

verus! {

/// How serious a report is.
#[derive(Debug, Clone, Copy, PartialEq, Eq, Structural)]
pub enum Severity {
    Error,
    Warn,
    Info,
    Debug,
    Trace,
}

/// The form of a report for the journal.
#[derive(Debug, Clone, Copy, PartialEq, Eq, Structural)]
pub struct JournalFormat;

/// The priority of a report, as syslog counts it.
pub open spec fn priority_of(s: Severity) -> Seq<char> {
    match s {
        Severity::Error => "3"@,
        Severity::Warn => "4"@,
        Severity::Info => "6"@,
        Severity::Debug | Severity::Trace => "7"@,
    }
}

impl JournalFormat {
    /// The priority of a report, as syslog counts it.
    pub fn priority(s: Severity) -> (r: &'static str)
        ensures
            r@ == priority_of(s),
    {
        match s {
            Severity::Error => "3",
            Severity::Warn => "4",
            Severity::Info => "6",
            Severity::Debug => "7",
            Severity::Trace => "7",
        }
    }

    /// A report: its priority, the part of the agent it comes from, and its words.
    pub fn format_event(&self, s: Severity, target: &str, fields: &str) -> (r: String)
        ensures
            r@ == "<"@ + priority_of(s) + ">"@ + target@ + ": "@ + fields@ + "\n"@,
    {
        let head = text::cat5("<", Self::priority(s), ">", target, ": ");
        text::cat3(head.as_str(), fields, "\n")
    }
}

// Laws

/// Priorities are those of syslog: a report that is more serious has the smaller number.
pub proof fn priorities_are_those_of_syslog()
    ensures
        priority_of(Severity::Error) == seq!['3'],
        priority_of(Severity::Warn) == seq!['4'],
        priority_of(Severity::Info) == seq!['6'],
        priority_of(Severity::Debug) == seq!['7'],
        priority_of(Severity::Trace) == seq!['7'],
{
    reveal_strlit("3");
    reveal_strlit("4");
    reveal_strlit("6");
    reveal_strlit("7");
}

} // verus!
