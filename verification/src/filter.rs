//! Frame filters.
//!
//! A filter is an opaque token an element registers to run before or after
//! the next frame's build; the frame driver resolves the tokens. The engine
//! only collects them, in registration order.

use vstd::prelude::*;

verus! {

/// An opaque handle to a pre- or post-build step of the frame driver.
#[derive(Copy, Clone, Debug, PartialEq, Eq, Structural)]
pub struct UIFilter {
    pub token: u64,
}

/// The filters registered for the next frame, split by phase.
pub struct FilterStack {
    pub pre: Vec<UIFilter>,
    pub post: Vec<UIFilter>,
}

impl FilterStack {
    pub fn new() -> (f: FilterStack)
        ensures
            f.pre@ == Seq::<UIFilter>::empty(),
            f.post@ == Seq::<UIFilter>::empty(),
    {
        FilterStack { pre: Vec::new(), post: Vec::new() }
    }

    /// Register a filter to run before the next frame's build.
    pub fn filter_pre(&mut self, filter: UIFilter)
        ensures
            final(self).pre@ == old(self).pre@.push(filter),
            final(self).post@ == old(self).post@,
    {
        self.pre.push(filter);
    }

    /// Register a filter to run after the next frame's build.
    pub fn filter_post(&mut self, filter: UIFilter)
        ensures
            final(self).post@ == old(self).post@.push(filter),
            final(self).pre@ == old(self).pre@,
    {
        self.post.push(filter);
    }
}

impl Default for FilterStack {
    fn default() -> (f: FilterStack)
        ensures
            f.pre@ == Seq::<UIFilter>::empty(),
            f.post@ == Seq::<UIFilter>::empty(),
    {
        FilterStack::new()
    }
}

} // verus!
