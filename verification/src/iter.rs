//! Merging of per-page iterators: the tree layer hands each page's
//! iterator to a builder, which assembles the merged view over all of
//! them.

use vstd::prelude::*;

verus! {

/// An iterator over one page's records that can reposition itself at
/// a key. The tree layer implements it for each page kind.
pub trait PageIter {
    /// Position the iterator at the first record whose key is not
    /// below `key`.
    fn seek(&mut self, key: &[u8]);
}

/// The merged view over a set of page iterators.
pub struct MergeIter<I: PageIter> {
    /// The per-page iterators being merged.
    pub children: Vec<I>,
}

/// Collects the page iterators that a merged view will draw from.
pub struct MergeIterBuilder<I: PageIter> {
    /// The iterators collected so far.
    pub children: Vec<I>,
}

impl<I: PageIter> MergeIterBuilder<I> {
    /// Add one page iterator to the merge.
    pub fn add(&mut self, child: I)
        ensures
            final(self).children@ == old(self).children@.push(child),
    {
        self.children.push(child);
    }

    /// The merged view over every added iterator.
    pub fn build(self) -> (m: MergeIter<I>)
        ensures
            m.children == self.children,
    {
        MergeIter { children: self.children }
    }
}

impl<I: PageIter> Default for MergeIterBuilder<I> {
    /// A builder with no iterators yet.
    fn default() -> (b: Self)
        ensures
            b.children@.len() == 0,
    {
        MergeIterBuilder { children: Vec::new() }
    }
}

} // verus!
