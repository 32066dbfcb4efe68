//! Why a solve or a query failed.

use crate::text::{concat, concat3, quoted, quoted_text};
use vstd::prelude::*;
use vstd::string::*;

verus! {

/// Why a solve failed.
#[derive(Debug, Clone, PartialEq, Eq)]
pub enum Error {
    /// The records of a channel could not be fetched, and why.
    Gateway(String),
    /// The virtual packages of the platform could not be found out, and why.
    VirtualPackages(String),
    /// There is no solution, and why.
    Unsolvable(String),
    /// The solver failed, and why.
    Solve(String),
    /// A channel's name stands for none.
    Channel { name: String, source: String },
}

/// The message of a failed solve.
pub open spec fn error_text(e: Error) -> Seq<char> {
    match e {
        Error::Gateway(message) => "failed to fetch repodata: "@ + message@,
        Error::VirtualPackages(message) => "failed to detect virtual packages: "@ + message@,
        Error::Unsolvable(message) => message@,
        Error::Solve(message) => message@,
        Error::Channel { name, source } => "invalid channel "@ + quoted_text(name@) + ": "@
            + source@,
    }
}

impl Error {
    /// Whether there is no solution.
    pub fn is_unsolvable(&self) -> (r: bool)
        ensures
            r == (*self is Unsolvable),
    {
        match self {
            Error::Unsolvable(_) => true,
            _ => false,
        }
    }

    /// The message of the error.
    pub fn to_string(&self) -> (r: String)
        ensures
            r@ == error_text(*self),
    {
        match self {
            Error::Gateway(message) => concat("failed to fetch repodata: ", message.as_str()),
            Error::VirtualPackages(message) => concat(
                "failed to detect virtual packages: ",
                message.as_str(),
            ),
            Error::Unsolvable(message) => message.clone(),
            Error::Solve(message) => message.clone(),
            Error::Channel { name, source } => {
                let shown = quoted(name.as_str());
                let head = concat3("invalid channel ", shown.as_str(), ": ");
                concat(head.as_str(), source.as_str())
            },
        }
    }
}

/// Why the query of one channel gave no records.
#[derive(Debug, Clone, PartialEq, Eq)]
pub enum ChannelQueryError {
    /// The channel has none of the asked-for directories; the name of the
    /// missing one.
    SubdirNotFound(String),
    /// Anything else, and what.
    Fetch(String),
}

impl ChannelQueryError {
    /// The message of the error.
    pub fn to_string(&self) -> (r: String)
        ensures
            match *self {
                ChannelQueryError::SubdirNotFound(subdir) => r@ == "no "@ + quoted_text(subdir@)
                    + " subdir"@,
                ChannelQueryError::Fetch(message) => r@ == message@,
            },
    {
        match self {
            ChannelQueryError::SubdirNotFound(subdir) => {
                let shown = quoted(subdir.as_str());
                concat3("no ", shown.as_str(), " subdir")
            },
            ChannelQueryError::Fetch(message) => message.clone(),
        }
    }
}

/// What the failure of a query comes down to: a missing directory where it
/// names one, else its message.
pub fn classify(missing_subdir: Option<String>, message: String) -> (r: ChannelQueryError)
    ensures
        r == match missing_subdir {
            Some(subdir) => ChannelQueryError::SubdirNotFound(subdir),
            None => ChannelQueryError::Fetch(message),
        },
{
    match missing_subdir {
        Some(subdir) => ChannelQueryError::SubdirNotFound(subdir),
        None => ChannelQueryError::Fetch(message),
    }
}

/// Each failed solve says what failed; one without a solution, and one that
/// the solver failed at, say only why.
pub proof fn failures_say_why(message: String, name: String)
    ensures
        error_text(Error::Gateway(message)) == "failed to fetch repodata: "@ + message@,
        error_text(Error::VirtualPackages(message)) == "failed to detect virtual packages: "@
            + message@,
        error_text(Error::Unsolvable(message)) == message@,
        error_text(Error::Solve(message)) == message@,
        error_text(Error::Channel { name, source: message }) == "invalid channel "@ + quoted_text(
            name@,
        ) + ": "@ + message@,
{
}

} // verus!
