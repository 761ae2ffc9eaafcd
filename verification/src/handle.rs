//! The caller-held checkout token.
//!
//! A successful selection hands the caller a handle naming the relay and
//! the variant it was drawn from. Releasing the handle returns the relay,
//! and a handle releases at most once however often release is invoked:
//! the second and later calls change nothing.

use vstd::prelude::*;
use crate::selector::RelaySelector;
use crate::variant::Variant;

verus! {

/// A checked-out relay: the URL, the variant it was selected under, and
/// whether the checkout has been returned.
pub struct RelayHandle {
    /// The selected relay's URL.
    pub url: String,
    /// The variant the relay was selected under.
    pub variant: Variant,
    /// Whether this handle has already been released.
    pub released: bool,
}

impl RelayHandle {
    /// Wraps a fresh checkout.
    pub fn new(url: String, variant: Variant) -> (r: RelayHandle)
        ensures
            r.url == url,
            r.variant == variant,
            !r.released,
    {
        RelayHandle { url, variant, released: false }
    }

    /// Returns the relay to the registry. Exactly the first call counts:
    /// a handle already released leaves the registry untouched, so any
    /// number of calls decrements the relay's checked-out count once.
    pub fn release(&mut self, selector: &mut RelaySelector)
        requires
            old(selector).wf_basic(),
        ensures
            final(selector).wf_basic(),
            final(self).url == old(self).url,
            final(self).variant == old(self).variant,
            final(self).released,
            old(self).released ==> *final(selector) == *old(selector),
            !old(self).released && !old(selector).statistics@.dom().contains(old(self).url@)
                ==> *final(selector) == *old(selector),
            !old(self).released && old(selector).statistics@.dom().contains(old(self).url@)
                ==> ({
                let prev = old(selector).statistics@[old(self).url@];
                let st = final(selector).statistics@[old(self).url@];
                &&& st.active_connections as int == if prev.active_connections == 0 {
                    0
                } else {
                    prev.active_connections - 1
                }
                &&& st.requests == prev.requests
                &&& st.successful_requests == prev.successful_requests
                &&& st.response_times@ == prev.response_times@
                &&& st.trust_level == prev.trust_level
                &&& st.vendor_score == prev.vendor_score
                &&& final(selector).statistics@ == old(selector).statistics@.insert(
                    old(self).url@,
                    st,
                )
            }),
    {
        if self.released {
            return ;
        }
        selector.return_relay(self.url.as_str(), self.variant);
        self.released = true;
    }
}

} // verus!
