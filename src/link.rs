//! Links that thread the vacant slots of a depot into a sorted chain, and
//! the cached bounds of that chain.
use vstd::prelude::*;

verus! {

/// The neighbours of a vacant slot in the chain of vacant slots: the
/// nearest vacant index below it and the nearest vacant index above it.
#[derive(Clone, Copy, Debug, PartialEq, Eq, Structural)]
pub struct Link {
    pub prev: Option<usize>,
    pub next: Option<usize>,
}

impl Link {
    #[must_use]
    pub fn new(prev: Option<usize>, next: Option<usize>) -> (r: Self)
        ensures
            r.prev == prev,
            r.next == next,
    {
        Self { prev, next }
    }

    /// A link strictly inside the chain, with a neighbour on each side.
    #[must_use]
    pub fn new_middle(prev: usize, next: usize) -> (r: Self)
        ensures
            r.prev == Some(prev),
            r.next == Some(next),
    {
        Self { prev: Some(prev), next: Some(next) }
    }

    /// The head of the chain: nothing below it.
    #[must_use]
    pub fn new_start(next: usize) -> (r: Self)
        ensures
            r.prev.is_none(),
            r.next == Some(next),
    {
        Self { prev: None, next: Some(next) }
    }

    /// The tail of the chain: nothing above it.
    #[must_use]
    pub fn new_end(prev: usize) -> (r: Self)
        ensures
            r.prev == Some(prev),
            r.next.is_none(),
    {
        Self { prev: Some(prev), next: None }
    }

    /// The only node of a chain: no neighbour on either side.
    #[must_use]
    pub fn new_detached() -> (r: Self)
        ensures
            r.prev.is_none(),
            r.next.is_none(),
    {
        Self { prev: None, next: None }
    }
}

/// The lowest and the highest vacant index of a depot.
#[derive(Clone, Copy, Debug, PartialEq, Eq, Structural)]
pub struct EmptyBounds {
    pub first: usize,
    pub last: usize,
}

impl EmptyBounds {
    #[must_use]
    pub fn new(first: usize, last: usize) -> (r: Self)
        ensures
            r.first == first,
            r.last == last,
    {
        Self { first, last }
    }

    /// The bounds of a chain that holds the one index `index`.
    #[must_use]
    pub fn new_single(index: usize) -> (r: Self)
        ensures
            r.first == index,
            r.last == index,
    {
        Self { first: index, last: index }
    }
}

} // verus!
