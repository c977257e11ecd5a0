//! The collection point for what the walkers of one scan report.

use vstd::prelude::*;

verus! {

/// Collects the items that producers report, in the order of their arrival.
/// It neither filters nor changes them. The caller feeds it from the
/// receiving end of a channel and takes the collection once every producer
/// has finished.
pub struct ResultAggregator<T> {
    items: Vec<T>,
}

impl<T> ResultAggregator<T> {
    /// The items accepted so far, in the order of their arrival.
    pub closed spec fn collected(&self) -> Seq<T> {
        self.items@
    }

    /// An aggregator that has accepted nothing.
    pub fn new() -> (aggregator: Self)
        ensures
            aggregator.collected() == Seq::<T>::empty(),
    {
        ResultAggregator { items: Vec::new() }
    }

    /// Accepts one item.
    pub fn accept(&mut self, item: T)
        ensures
            final(self).collected() == old(self).collected().push(item),
    {
        self.items.push(item);
    }

    /// The number of items accepted so far.
    pub fn len(&self) -> (n: usize)
        ensures
            n == self.collected().len(),
    {
        self.items.len()
    }

    /// Hands over everything that was accepted.
    pub fn finish(self) -> (items: Vec<T>)
        ensures
            items@ == self.collected(),
    {
        self.items
    }
}

} // verus!
