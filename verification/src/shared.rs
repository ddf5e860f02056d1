//! Pointers that several hold.

use std::sync::Arc;

use vstd::prelude::*;

use crate::external;

verus! {

/// `count` is how many are found to hold the pointer when they are counted.
pub closed spec fn is_held_by<T>(pointer: Arc<T>, count: usize) -> bool {
    call_ensures(external::strong_count::<T>, (&pointer,), count)
}

/// A count is what counting gave, and nothing else.
pub(crate) proof fn a_count_is_what_was_counted<T>(pointer: Arc<T>, count: usize)
    ensures
        is_held_by(pointer, count) <==> call_ensures(
            external::strong_count::<T>,
            (&pointer,),
            count,
        ),
{
}

/// Counts how many hold the pointer.
pub fn holders_of<T>(pointer: &Arc<T>) -> (count: usize)
    ensures
        is_held_by(*pointer, count),
        count >= 1,
{
    external::strong_count(pointer)
}

/// A pointer that is kept. There is no way to copy it: whoever keeps it holds it once, until it is
/// given up.
pub struct Kept<T> {
    pointer: Arc<T>,
}

impl<T> View for Kept<T> {
    type V = Arc<T>;

    closed spec fn view(&self) -> Arc<T> {
        self.pointer
    }
}

impl<T> Kept<T> {
    /// Keeps a pointer.
    pub fn new(pointer: Arc<T>) -> (kept: Self)
        ensures
            kept@ == pointer,
    {
        Kept { pointer: pointer }
    }

    /// What it points to.
    pub fn get(&self) -> (value: &T)
        ensures
            *value == *self@,
    {
        &*self.pointer
    }

    /// Counts how many hold the pointer, the keeper among them.
    pub fn holders(&self) -> (count: usize)
        ensures
            is_held_by(self@, count),
            count >= 1,
    {
        holders_of(&self.pointer)
    }

    /// Gives the pointer up.
    pub fn give_up(self) -> (pointer: Arc<T>)
        ensures
            pointer == self@,
    {
        self.pointer
    }
}

} // verus!
