//! The visible-text filter of the resuming handler: reasoning and tool-call
//! blocks are suppressed, and a closer that closes nothing is content.

use vstd::prelude::*;
use vstd::string::*;

use crate::markup::{fed, finished, fresh_filter, FilterView, MarkupFilter};

verus! {

/// Suppresses reasoning and tool-call blocks in a stream. A tail that may be
/// the start of a marker is held back until it is decided.
pub struct VisibleFilter {
    inner: MarkupFilter,
}

impl View for VisibleFilter {
    type V = FilterView;

    closed spec fn view(&self) -> FilterView {
        self.inner@
    }
}

impl VisibleFilter {
    /// A filter that has seen nothing.
    pub fn new() -> (r: VisibleFilter)
        ensures
            r@ == fresh_filter(),
    {
        VisibleFilter { inner: MarkupFilter::new() }
    }

    /// Feeds a decoded chunk; answers the newly visible text, which is empty
    /// while a partial marker is undecided.
    pub fn feed(&mut self, delta: &str) -> (r: String)
        ensures
            (final(self)@, r@) == fed(old(self)@, delta@, 2),
    {
        self.inner.feed(delta, 2)
    }

    /// Shows what is held back at the end of generation.
    pub fn finish(&mut self) -> (r: String)
        ensures
            (final(self)@, r@) == finished(old(self)@),
    {
        self.inner.finish()
    }
}

} // verus!
