//! A rate-limit-aware engine for applying one action to each item of a
//! paginated remote collection, up to a caller-given limit.
//!
//! The crate holds the decision logic only: which request to issue next,
//! how to react to a rate-limit signal, and how the pagination cursor and
//! the remaining-work counter advance. Sending requests and sleeping are
//! left to the caller, which feeds the observed responses back in.

pub mod engine;
pub mod error;
pub mod script;
pub mod snowflake;
pub mod transport;
