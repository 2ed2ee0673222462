//! Unique portal identifiers.

use vstd::prelude::*;

verus! {

/// Identifier of a portal within one running session.
///
/// ID 0 is reserved. Identifiers are never persisted: they are handed out
/// anew by a [`PortalIdSource`] each time a world is loaded.
#[derive(Debug, Copy, Clone, PartialEq, Eq, Hash, PartialOrd, Ord, Structural)]
pub struct PortalId(u64);

impl PortalId {
    /// The number behind the identifier.
    pub closed spec fn spec_value(self) -> u64 {
        self.0
    }

    /// Wraps a nonzero number as an identifier.
    pub fn new(value: u64) -> (r: Self)
        requires
            value != 0,
        ensures
            r.spec_value() == value,
    {
        PortalId(value)
    }

    /// Returns the number behind the identifier.
    pub fn value(self) -> (r: u64)
        ensures
            r == self.spec_value(),
    {
        self.0
    }
}

/// Monotonic source of fresh portal identifiers, scoped to one running
/// application instance.
pub struct PortalIdSource {
    next: u64,
}

impl PortalIdSource {
    /// The next identifier to hand out; stays nonzero.
    pub closed spec fn spec_next(self) -> u64 {
        self.next
    }

    /// A source never hands out the reserved identifier 0.
    pub open spec fn wf(self) -> bool {
        self.spec_next() >= 1
    }

    /// A fresh source, starting at identifier 1.
    pub fn new() -> (r: Self)
        ensures
            r.wf(),
            r.spec_next() == 1,
    {
        PortalIdSource { next: 1 }
    }

    /// Hands out the next identifier and advances the counter.
    pub fn fresh(&mut self) -> (r: PortalId)
        requires
            old(self).wf(),
            old(self).spec_next() < u64::MAX,
        ensures
            final(self).wf(),
            r.spec_value() == old(self).spec_next(),
            final(self).spec_next() == old(self).spec_next() + 1,
    {
        let id = PortalId(self.next);
        self.next = self.next + 1;
        id
    }
}

} // verus!
