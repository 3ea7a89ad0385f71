//! The command line.
use vstd::prelude::*;

use crate::config::Config;
use crate::number;
use crate::text;

verus! {

/// What was asked for on the command line.
pub struct Cli {
    /// The configuration file.
    pub config: String,
    /// How often more words were asked for.
    pub verbose: u8,
    pub command: Command,
}

/// What the agent is to do.
#[derive(Debug, Clone, Copy, PartialEq, Eq, Structural)]
pub enum Command {
    /// Collect and forward.
    Run,
    /// Check the configuration file.
    Validate,
}

/// Which reports are written.
pub open spec fn filter(verbose: u8) -> Seq<char> {
    if verbose == 0 {
        "ferrometer=info"@
    } else if verbose == 1 {
        "ferrometer=debug"@
    } else if verbose == 2 {
        "ferrometer=trace"@
    } else {
        "trace"@
    }
}

/// Which reports are written.
pub fn log_filter(verbose: u8) -> (r: &'static str)
    ensures
        r@ == filter(verbose),
{
    match verbose {
        0 => "ferrometer=info",
        1 => "ferrometer=debug",
        2 => "ferrometer=trace",
        _ => "trace",
    }
}

/// What is said of a valid configuration.
pub open spec fn summary_of(collectors: nat, forwarders: nat, shippers: nat) -> Seq<char> {
    "Configuration is valid. "@ + number::decimal(collectors) + " collector(s), "@
        + number::decimal(forwarders) + " forwarder(s), "@ + number::decimal(shippers)
        + " log shipper(s) configured."@
}

/// What is said of a valid configuration.
pub fn summary(config: &Config) -> (r: String)
    ensures
        r@ == summary_of(
            config.metrics.collectors@.len(),
            config.metrics.forwarders@.len(),
            config.logs.shippers@.len(),
        ),
{
    let c = number::decimal_text(config.metrics.collectors.len() as u64);
    let f = number::decimal_text(config.metrics.forwarders.len() as u64);
    let s = number::decimal_text(config.logs.shippers.len() as u64);
    let first = text::cat5(
        "Configuration is valid. ",
        c.as_str(),
        " collector(s), ",
        f.as_str(),
        " forwarder(s), ",
    );
    text::cat3(first.as_str(), s.as_str(), " log shipper(s) configured.")
}

// Laws

/// More words are asked for step by step, first of the agent itself and at last of everything.
pub proof fn more_words_are_written_step_by_step(verbose: u8)
    ensures
        filter(0) == "ferrometer=info"@,
        filter(1) == "ferrometer=debug"@,
        filter(2) == "ferrometer=trace"@,
        verbose >= 3 ==> filter(verbose) == "trace"@,
{
}

/// What is said of a valid configuration counts the collectors, the forwarders and the shippers,
/// in this order.
pub proof fn collectors_forwarders_and_shippers_are_counted(c: nat, f: nat, s: nat)
    ensures
        summary_of(c, f, s) == "Configuration is valid. "@ + number::decimal(c)
            + " collector(s), "@ + number::decimal(f) + " forwarder(s), "@ + number::decimal(s)
            + " log shipper(s) configured."@,
{
}

} // verus!
