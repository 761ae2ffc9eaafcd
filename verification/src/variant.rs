//! Relay usage categories.
//!
//! A relay serves one of four roles: `General` for arbitrary traffic,
//! `Inbox` and `Outbox` for directional roles, and `Local` as a degenerate
//! alias that is stored with the general relays but cannot be selected
//! independently.

use vstd::prelude::*;
use vstd::string::StringExecFns;
use crate::strings::str_eq;

verus! {

/// The intended usage category of a relay.
#[derive(Clone, Copy, Debug, PartialEq, Eq, Structural)]
pub enum Variant {
    General,
    Inbox,
    Outbox,
    Local,
}

/// The variant named by a string, if any: exactly the four lowercase names
/// are accepted.
pub open spec fn spec_variant_from_str(s: Seq<char>) -> Option<Variant> {
    if s == "general"@ {
        Some(Variant::General)
    } else if s == "inbox"@ {
        Some(Variant::Inbox)
    } else if s == "outbox"@ {
        Some(Variant::Outbox)
    } else if s == "local"@ {
        Some(Variant::Local)
    } else {
        None
    }
}

/// The lowercase name of a variant.
pub open spec fn spec_variant_name(v: Variant) -> Seq<char> {
    match v {
        Variant::General => "general"@,
        Variant::Inbox => "inbox"@,
        Variant::Outbox => "outbox"@,
        Variant::Local => "local"@,
    }
}

impl Variant {
    /// Parses a variant from its lowercase name.
    pub fn from_str(s: &str) -> (r: Option<Variant>)
        ensures
            r == spec_variant_from_str(s@),
    {
        if str_eq(s, "general") {
            Some(Variant::General)
        } else if str_eq(s, "inbox") {
            Some(Variant::Inbox)
        } else if str_eq(s, "outbox") {
            Some(Variant::Outbox)
        } else if str_eq(s, "local") {
            Some(Variant::Local)
        } else {
            None
        }
    }

    /// Renders the lowercase name of this variant.
    pub fn to_string(&self) -> (r: String)
        ensures
            r@ == spec_variant_name(*self),
    {
        match self {
            Variant::General => String::from_str("general"),
            Variant::Inbox => String::from_str("inbox"),
            Variant::Outbox => String::from_str("outbox"),
            Variant::Local => String::from_str("local"),
        }
    }
}

/// Round trip: rendering a variant and parsing the result gives the variant
/// back.
pub proof fn lemma_variant_name_round_trip(v: Variant)
    ensures
        spec_variant_from_str(spec_variant_name(v)) == Some(v),
{
    broadcast use vstd::string::group_string_axioms;

    reveal_strlit("general");
    reveal_strlit("inbox");
    reveal_strlit("outbox");
    reveal_strlit("local");
    assert("general"@.len() == 7);
    assert("inbox"@.len() == 5);
    assert("outbox"@.len() == 6);
    assert("local"@.len() == 5);
    assert("inbox"@[0] == 'i' && "local"@[0] == 'l');
}

} // verus!
