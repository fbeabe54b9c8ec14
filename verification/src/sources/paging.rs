//! Walking a registry's numbered result pages.
use vstd::prelude::*;

verus! {

/// Where a walk over result pages stands: the next page to ask for, the page at which
/// the walk stops, and whether a page came back empty.
pub struct Pages {
    next: u32,
    end: u32,
    exhausted: bool,
}

impl Pages {
    pub closed spec fn next_spec(&self) -> u32 {
        self.next
    }

    pub closed spec fn end_spec(&self) -> u32 {
        self.end
    }

    pub closed spec fn exhausted_spec(&self) -> bool {
        self.exhausted
    }

    /// A walk over pages `first`, `first + 1`, ... up to but not including `end`.
    pub fn new(first: u32, end: u32) -> (r: Pages)
        ensures
            r.next_spec() == first,
            r.end_spec() == end,
            !r.exhausted_spec(),
    {
        Pages { next: first, end, exhausted: false }
    }

    /// The page to ask for next, with `collected` results gathered so far, or `None` once
    /// `limit` results are gathered, a page came back empty, or the pages run out.
    pub fn next_page(&self, collected: usize, limit: usize) -> (r: Option<u32>)
        ensures
            r is None <==> (self.exhausted_spec() || self.next_spec() >= self.end_spec()
                || collected >= limit),
            r matches Some(p) ==> p == self.next_spec(),
    {
        if self.exhausted || self.next >= self.end || collected >= limit {
            None
        } else {
            Some(self.next)
        }
    }

    /// Records the answer to the page `next_page` gave: the walk stops after an empty
    /// page and otherwise moves on to the following page.
    pub fn record(&mut self, page_was_empty: bool)
        requires
            old(self).next_spec() < old(self).end_spec(),
        ensures
            final(self).next_spec() == old(self).next_spec() + 1,
            final(self).end_spec() == old(self).end_spec(),
            final(self).exhausted_spec() == page_was_empty,
    {
        self.next = self.next + 1;
        self.exhausted = page_was_empty;
    }
}

} // verus!
