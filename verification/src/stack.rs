//! A small growable stack used as a generic container utility.

use core::hash::Hash;
use vstd::prelude::*;

verus! {

/// A last-in-first-out stack over a growable vector.
#[derive(Debug)]
pub struct Stack<T>(pub Vec<T>) where T: Clone + Eq + PartialOrd + Hash;

impl<T: Clone + Eq + PartialOrd + Hash> View for Stack<T> {
    type V = Seq<T>;

    open spec fn view(&self) -> Seq<T> {
        self.0@
    }
}

impl<T: Clone + Eq + PartialOrd + Hash> Stack<T> {
    /// An empty stack.
    pub fn new() -> (r: Stack<T>)
        ensures
            r@ == Seq::<T>::empty(),
    {
        Stack(Vec::new())
    }

    /// A stack holding exactly the given items, the last one on top.
    pub fn from(data: Vec<T>) -> (r: Stack<T>)
        ensures
            r@ == data@,
    {
        Stack(data)
    }

    /// Put a value on top.
    pub fn push(&mut self, value: T)
        ensures
            final(self)@ == old(self)@.push(value),
    {
        self.0.push(value);
    }

    /// Take the top value off, if any.
    pub fn pop(&mut self) -> (r: Option<T>)
        ensures
            match r {
                Some(v) => old(self)@.len() > 0 && v == old(self)@.last() && final(self)@ == old(
                    self,
                )@.drop_last(),
                None => old(self)@.len() == 0 && final(self)@ == old(self)@,
            },
    {
        if self.0.is_empty() {
            return None;
        }
        let v = self.0.remove(self.0.len() - 1);
        proof {
            assert(final(self)@ =~= old(self)@.drop_last());
        }
        Some(v)
    }

    /// The top value without removing it, if any.
    pub fn peek(&self) -> (r: Option<&T>)
        ensures
            match r {
                Some(v) => self@.len() > 0 && *v == self@.last(),
                None => self@.len() == 0,
            },
    {
        if self.0.is_empty() {
            return None;
        }
        Some(&self.0[self.0.len() - 1])
    }

    /// The top value, mutably, if any.
    pub fn peek_mut(&mut self) -> Option<&mut T> {
        if self.0.is_empty() {
            return None;
        }
        let i = self.0.len() - 1;
        Some(&mut self.0[i])
    }

    /// Whether the stack holds nothing.
    pub fn is_empty(&self) -> (r: bool)
        ensures
            r == (self@.len() == 0),
    {
        self.0.is_empty()
    }

    /// The items, bottom first.
    pub fn vec(&self) -> (r: &Vec<T>)
        ensures
            r@ == self@,
    {
        &self.0
    }

    /// The items, mutably.
    pub fn vec_mut(&mut self) -> &mut Vec<T> {
        &mut self.0
    }

    /// Whether this stack holds fewer items than the other.
    pub fn size_le(&self, other: &Stack<T>) -> (r: bool)
        ensures
            r == (self@.len() < other@.len()),
    {
        self.0.len() < other.0.len()
    }

    /// Whether this stack holds more items than the other.
    pub fn size_gt(&self, other: &Stack<T>) -> (r: bool)
        ensures
            r == (self@.len() > other@.len()),
    {
        self.0.len() > other.0.len()
    }
}

} // verus!
