use vstd::prelude::*;

verus! {

/// Why a run aborted.
///
/// A rate-limit response (status 429) is absorbed by retrying and never
/// appears here. Every other failure ends the whole run: a failure on one
/// item would fail identically on every later item, so there is no
/// skip-and-continue policy.
#[derive(Clone, Copy, Debug, PartialEq, Eq, Structural)]
pub enum EngineError {
    /// A response body did not have the expected shape.
    Protocol,
    /// A client or server error status other than 429; no retry is attempted.
    Http { status: u16 },
    /// A connection-level failure.
    Transport,
}

} // verus!
