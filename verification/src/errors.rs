//! The error taxonomy of the scheduler.
//!
//! Errors that block a caller's intent are surfaced through these variants;
//! degradations (missing configuration, background persistence) are handled
//! with defaults by the callers instead.

use vstd::prelude::*;
use vstd::string::StringExecFns;

verus! {

/// Why a scheduler call was refused.
#[derive(Clone, Copy, Debug, PartialEq, Eq, Structural)]
pub enum SelectorError {
    /// The variant string names no known variant, or the variant cannot be
    /// scheduled.
    InvalidVariant,
    /// A response time was negative or not a number.
    InvalidDuration,
    /// The requested rank is at or past the end of the variant's list.
    RankOutOfRange,
    /// A server-side caller selected a relay outside the allowlist.
    NotAllowed,
    /// The scheduler was used before a configuration provider was set.
    NotInitialized,
    /// The relay already has the largest representable number of
    /// checked-out connections.
    LimitExceeded,
    /// The persistent store failed while loading.
    StorageFailure,
    /// The configuration provider failed.
    ConfigFailure,
}

/// The description of each error.
pub open spec fn spec_error_message(e: SelectorError) -> Seq<char> {
    match e {
        SelectorError::InvalidVariant => "invalid relay variant"@,
        SelectorError::InvalidDuration => "invalid response time"@,
        SelectorError::RankOutOfRange => "no relay at the requested rank"@,
        SelectorError::NotAllowed => "relay not allowed from this server"@,
        SelectorError::NotInitialized => "config provider must be set before use"@,
        SelectorError::LimitExceeded => "too many active connections to relay"@,
        SelectorError::StorageFailure => "failed to load persisted relays"@,
        SelectorError::ConfigFailure => "failed to fetch configuration"@,
    }
}

impl SelectorError {
    /// Renders a short description of the error.
    pub fn message(&self) -> (r: String)
        ensures
            r@ == spec_error_message(*self),
    {
        match self {
            SelectorError::InvalidVariant => String::from_str("invalid relay variant"),
            SelectorError::InvalidDuration => String::from_str("invalid response time"),
            SelectorError::RankOutOfRange => String::from_str("no relay at the requested rank"),
            SelectorError::NotAllowed => String::from_str("relay not allowed from this server"),
            SelectorError::NotInitialized => String::from_str(
                "config provider must be set before use",
            ),
            SelectorError::LimitExceeded => String::from_str(
                "too many active connections to relay",
            ),
            SelectorError::StorageFailure => String::from_str("failed to load persisted relays"),
            SelectorError::ConfigFailure => String::from_str("failed to fetch configuration"),
        }
    }
}

} // verus!
