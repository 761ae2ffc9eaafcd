//! A relay paired with its usage category.

use vstd::prelude::*;
use crate::strings::str_eq;

verus! {

/// A relay's usage category, parsed from its lowercase name.
#[derive(Clone, Copy, Debug, PartialEq, Eq, Structural)]
pub enum RelayVariant {
    General,
    Inbox,
    Outbox,
    Local,
}

/// The category named by a string, if any.
pub open spec fn spec_relay_variant_from_str(s: Seq<char>) -> Option<RelayVariant> {
    if s == "general"@ {
        Some(RelayVariant::General)
    } else if s == "inbox"@ {
        Some(RelayVariant::Inbox)
    } else if s == "outbox"@ {
        Some(RelayVariant::Outbox)
    } else if s == "local"@ {
        Some(RelayVariant::Local)
    } else {
        None
    }
}

impl RelayVariant {
    /// Parses a category from its lowercase name.
    pub fn from_str(s: &str) -> (r: Option<RelayVariant>)
        ensures
            r == spec_relay_variant_from_str(s@),
    {
        if str_eq(s, "general") {
            Some(RelayVariant::General)
        } else if str_eq(s, "inbox") {
            Some(RelayVariant::Inbox)
        } else if str_eq(s, "outbox") {
            Some(RelayVariant::Outbox)
        } else if str_eq(s, "local") {
            Some(RelayVariant::Local)
        } else {
            None
        }
    }
}

/// A relay endpoint and the category it serves.
pub struct Relay {
    pub variant: RelayVariant,
    pub url: String,
}

impl Relay {
    /// Pairs a URL with its category.
    pub fn new(variant: RelayVariant, url: String) -> (r: Relay)
        ensures
            r.variant == variant,
            r.url == url,
    {
        Relay { variant, url }
    }
}

} // verus!
