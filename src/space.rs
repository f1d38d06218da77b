//! One storage cell of a depot: a stored value, or the link of a vacant slot.
use crate::link::Link;
use vstd::prelude::*;

verus! {

/// A slot of a depot. A slot that holds a value is `Full`; a vacant slot
/// holds its place in the chain of vacant slots.
#[derive(Debug)]
pub enum Space<T> {
    Full(T),
    Empty(Link),
}

impl<T> Space<T> {
    /// The value a full slot holds, `None` for a vacant one.
    pub open spec fn value(self) -> Option<T> {
        match self {
            Space::Full(v) => Some(v),
            Space::Empty(_) => None,
        }
    }

    /// The link of a vacant slot; the caller knows the slot is vacant.
    #[must_use]
    pub fn expect_empty(&self) -> (r: &Link)
        requires
            self is Empty,
        ensures
            *self == Space::<T>::Empty(*r),
    {
        match self {
            Space::Empty(link) => link,
            Space::Full(_) => unreached(),
        }
    }

    /// The value of a full slot; the caller knows the slot is full.
    #[must_use]
    pub fn expect_full(&self) -> (r: &T)
        requires
            self is Full,
        ensures
            self.value() == Some(*r),
    {
        match self {
            Space::Full(value) => value,
            Space::Empty(_) => unreached(),
        }
    }

    /// The link of a vacant slot, to be changed in place.
    #[must_use]
    pub fn expect_empty_mut(&mut self) -> (r: &mut Link)
        requires
            *old(self) is Empty,
        ensures
            *old(self) == Space::<T>::Empty(*r),
            *final(self) == Space::<T>::Empty(*final(r)),
    {
        match self {
            Space::Empty(link) => link,
            Space::Full(_) => unreached(),
        }
    }

    /// The value of a full slot, to be changed in place.
    #[must_use]
    pub fn expect_full_mut(&mut self) -> (r: &mut T)
        requires
            *old(self) is Full,
        ensures
            old(self).value() == Some(*r),
            *final(self) == Space::<T>::Full(*final(r)),
    {
        match self {
            Space::Full(value) => value,
            Space::Empty(_) => unreached(),
        }
    }

    #[must_use]
    pub fn is_empty(&self) -> (r: bool)
        ensures
            r == (self is Empty),
    {
        match self {
            Space::Empty(_) => true,
            Space::Full(_) => false,
        }
    }

    #[must_use]
    pub fn is_full(&self) -> (r: bool)
        ensures
            r == (self is Full),
    {
        match self {
            Space::Full(_) => true,
            Space::Empty(_) => false,
        }
    }
}

} // verus!
