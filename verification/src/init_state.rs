//! The initialisation state of a lazily computed item.

use vstd::prelude::*;

verus! {

/// Not started, under way with a partial result, or done.
#[derive(Debug, Clone, PartialEq)]
pub enum InitState<T, U = T> {
    Done(T),
    Progress(U),
    Uninitialized,
}

impl<T> InitState<T, T> {
    /// Turns a partial result into the final one; other states stay.
    pub fn mark_done(&mut self)
        ensures
            match *old(self) {
                InitState::Done(v) => *final(self) == InitState::<T, T>::Done(v),
                InitState::Progress(v) => *final(self) == InitState::<T, T>::Done(v),
                InitState::Uninitialized => *final(self) == InitState::<T, T>::Uninitialized,
            },
    {
        let mut previous = InitState::Uninitialized;
        std::mem::swap(&mut previous, self);
        let new = match previous {
            InitState::Done(v) => InitState::Done(v),
            InitState::Progress(v) => InitState::Done(v),
            InitState::Uninitialized => InitState::Uninitialized,
        };
        *self = new;
    }

    /// The result, final or partial.
    pub fn get(&self) -> (r: &T)
        requires
            !(*self is Uninitialized),
        ensures
            match *self {
                InitState::Done(v) => *r == v,
                InitState::Progress(v) => *r == v,
                InitState::Uninitialized => false,
            },
    {
        match self {
            InitState::Done(v) => v,
            InitState::Progress(v) => v,
            InitState::Uninitialized => vstd::pervasive::unreached(),
        }
    }
}

impl<T, U> InitState<T, U> {
    /// The final result.
    pub fn get_done(&self) -> (r: &T)
        requires
            *self is Done,
        ensures
            *self == InitState::<T, U>::Done(*r),
    {
        match self {
            InitState::Done(v) => v,
            _ => vstd::pervasive::unreached(),
        }
    }

    /// Whether the final result is there.
    pub fn is_done(&self) -> (b: bool)
        ensures
            b == (*self is Done),
    {
        matches!(self, InitState::Done(..))
    }
}

} // verus!
