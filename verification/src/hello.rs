//! Sample application state served over an endpoint: a counter read by the
//! `"value"` request and stepped by the `"increment"` notification.  The
//! engine passes its payloads through untouched; this is the handler-side
//! state those handlers close over.

use vstd::prelude::*;

verus! {

/// A counter for the sample handlers.
pub struct Hello {
    counter: u64,
}

impl Hello {
    /// The count so far.
    pub closed spec fn count(self) -> u64 {
        self.counter
    }

    pub fn new() -> (r: Hello)
        ensures
            r.count() == 0,
    {
        Hello { counter: 0 }
    }

    /// The counter, as the 32-bit value the `"value"` handler answers with.
    pub fn value(&self) -> (r: u32)
        ensures
            r == self.count() as u32,
    {
        #[verifier::truncate] (self.counter as u32)
    }

    /// Steps the counter once, wrapping at the top.
    pub fn increment(&mut self)
        ensures
            final(self).count() == (if old(self).count() == u64::MAX {
                0u64
            } else {
                (old(self).count() + 1) as u64
            }),
    {
        if self.counter == u64::MAX {
            self.counter = 0;
        } else {
            self.counter = self.counter + 1;
        }
    }
}

} // verus!
