//! What can go wrong.
use vstd::prelude::*;

use crate::text;

verus! {

/// An error of the agent. What the operating system or another component reported is
/// carried as its text.
#[derive(Debug)]
pub enum Error {
    Config(String),
    Collector(String),
    Forwarder(String),
    Source(String),
    Sink(String),
    /// The sink refused the request because the payload is too large. Sending the same
    /// payload again can never succeed; the shipper splits it instead.
    SinkPayloadTooLarge(String),
    /// The sink refused (part of) the request as invalid. Its valid entries were taken
    /// and the others dropped, so sending again cannot succeed. The shipper reports the
    /// refusal and acknowledges.
    SinkRejected(String),
    FileRead { path: String, source: String },
    Io(String),
    Other(String),
}

impl Error {
    /// How the error reads.
    pub open spec fn wording(self) -> Seq<char> {
        match self {
            Error::Config(m) => "config error: "@ + m@,
            Error::Collector(m) => "collector error: "@ + m@,
            Error::Forwarder(m) => "forwarder error: "@ + m@,
            Error::Source(m) => "log source error: "@ + m@,
            Error::Sink(m) => "log sink error: "@ + m@,
            Error::SinkPayloadTooLarge(m) => "log sink rejected payload as too large: "@ + m@,
            Error::SinkRejected(m) => "log sink rejected payload: "@ + m@,
            Error::FileRead { path, source } => "failed to read "@ + path@ + ": "@ + source@,
            Error::Io(m) => m@,
            Error::Other(m) => m@,
        }
    }

    /// The error as a text.
    pub fn message(&self) -> (s: String)
        ensures
            s@ == self.wording(),
    {
        match self {
            Error::Config(m) => text::cat2("config error: ", m.as_str()),
            Error::Collector(m) => text::cat2("collector error: ", m.as_str()),
            Error::Forwarder(m) => text::cat2("forwarder error: ", m.as_str()),
            Error::Source(m) => text::cat2("log source error: ", m.as_str()),
            Error::Sink(m) => text::cat2("log sink error: ", m.as_str()),
            Error::SinkPayloadTooLarge(m) => text::cat2(
                "log sink rejected payload as too large: ",
                m.as_str(),
            ),
            Error::SinkRejected(m) => text::cat2("log sink rejected payload: ", m.as_str()),
            Error::FileRead { path, source } => text::cat4(
                "failed to read ",
                path.as_str(),
                ": ",
                source.as_str(),
            ),
            Error::Io(m) => m.clone(),
            Error::Other(m) => m.clone(),
        }
    }

    /// A configuration error with a given text.
    pub open spec fn is_config(self, text: Seq<char>) -> bool {
        self matches Error::Config(m) && m@ == text
    }
}

/// A result of the agent.
pub type Result<T> = std::result::Result<T, Error>;

// Laws

/// An error says of what kind it is, and then what happened; what the operating system reported is
/// said as it is.
pub proof fn errors_say_their_kind(m: String, path: String)
    ensures
        Error::Config(m).wording() == "config error: "@ + m@,
        Error::Collector(m).wording() == "collector error: "@ + m@,
        Error::Forwarder(m).wording() == "forwarder error: "@ + m@,
        Error::Source(m).wording() == "log source error: "@ + m@,
        Error::Sink(m).wording() == "log sink error: "@ + m@,
        Error::SinkPayloadTooLarge(m).wording() == "log sink rejected payload as too large: "@ + m@,
        Error::SinkRejected(m).wording() == "log sink rejected payload: "@ + m@,
        (Error::FileRead { path, source: m }).wording() == "failed to read "@ + path@ + ": "@ + m@,
        Error::Io(m).wording() == m@,
        Error::Other(m).wording() == m@,
        forall|text: Seq<char>| #[trigger] Error::Config(m).is_config(text) <==> m@ == text,
        forall|text: Seq<char>| !(#[trigger] Error::Other(m).is_config(text)),
{
}

} // verus!
