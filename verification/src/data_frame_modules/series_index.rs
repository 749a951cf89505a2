use std::fmt::Debug;
use vstd::prelude::*;

verus! {

/// One position of a series' logical order: a label, and the key under which
/// the value that belongs to it is stored.
#[derive(Debug, Clone)]
pub struct SeriesIndex<T: Clone + Debug + Ord> {
    pub label: T,
    pub key: usize,
}

impl<T: Clone + Debug + Ord> SeriesIndex<T> {
    pub fn new(label: T, key: usize) -> (entry: SeriesIndex<T>)
        ensures
            entry.label == label,
            entry.key == key,
    {
        SeriesIndex { label, key }
    }
}

} // verus!
