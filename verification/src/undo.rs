//! A bounded undo/redo history.
use std::collections::VecDeque;
use vstd::prelude::*;

verus! {

/// The undo side after a bounded push: when the stack already holds
/// `capacity` entries the oldest one is dropped first.
pub open spec fn bounded_push<T>(undo: Seq<T>, capacity: nat, x: T) -> Seq<T> {
    if undo.len() == capacity {
        undo.drop_first().push(x)
    } else {
        undo.push(x)
    }
}

/// A bounded push keeps the bound, puts the new entry on top, and below it
/// leaves the old entries, without the oldest one when the stack was full.
pub proof fn law_bounded_push<T>(undo: Seq<T>, capacity: nat, x: T)
    requires
        capacity > 0,
        undo.len() <= capacity,
    ensures
        bounded_push(undo, capacity, x).len() <= capacity,
        bounded_push(undo, capacity, x).last() == x,
        undo.len() < capacity ==> bounded_push(undo, capacity, x).drop_last() == undo,
        undo.len() == capacity ==> bounded_push(undo, capacity, x).drop_last() == undo.drop_first(),
{
    assert(undo.push(x).drop_last() =~= undo);
    if undo.len() == capacity {
        assert(undo.drop_first().push(x).drop_last() =~= undo.drop_first());
    }
}

/// A bounded undo/redo stack, generic over snapshot type `T`.
///
/// Pushing a new snapshot clears any pending redo entries (standard undo
/// semantics). When the stack exceeds `capacity`, the oldest entry is dropped.
#[derive(Debug)]
pub struct UndoStack<T> {
    undo: VecDeque<T>,
    redo: Vec<T>,
    capacity: usize,
}

impl<T> UndoStack<T> {
    /// The undo entries, oldest first.
    pub closed spec fn undo_seq(&self) -> Seq<T> {
        self.undo@
    }

    /// The redo entries, oldest first (the last one is redone next).
    pub closed spec fn redo_seq(&self) -> Seq<T> {
        self.redo@
    }

    /// The maximum number of undo entries kept.
    pub closed spec fn capacity(&self) -> nat {
        self.capacity as nat
    }

    /// A stack is well formed when its capacity is positive and the undo side
    /// holds at most `capacity` entries.
    pub open spec fn well_formed(&self) -> bool {
        &&& self.capacity() > 0
        &&& self.undo_seq().len() <= self.capacity()
    }

    /// Create a new stack with the given maximum capacity.
    ///
    /// A capacity of 0 is refused by the precondition.
    pub fn new(capacity: usize) -> (s: Self)
        requires
            capacity > 0,
        ensures
            s.undo_seq() == Seq::<T>::empty(),
            s.redo_seq() == Seq::<T>::empty(),
            s.capacity() == capacity,
            s.well_formed(),
    {
        UndoStack { undo: VecDeque::with_capacity(capacity), redo: Vec::new(), capacity }
    }

    /// Push a snapshot onto the undo stack.
    /// Clears the redo stack (forking history).
    pub fn push(&mut self, snapshot: T)
        requires
            old(self).well_formed(),
        ensures
            final(self).well_formed(),
            final(self).undo_seq() == bounded_push(old(self).undo_seq(), old(self).capacity(), snapshot),
            final(self).redo_seq() == Seq::<T>::empty(),
            final(self).capacity() == old(self).capacity(),
    {
        self.redo.clear();
        self.push_undo(snapshot);
    }

    /// Pop the most recent snapshot from the undo stack.
    pub fn pop_undo(&mut self) -> (r: Option<T>)
        requires
            old(self).well_formed(),
        ensures
            final(self).well_formed(),
            old(self).undo_seq().len() == 0 ==> r is None && final(self).undo_seq() == old(self).undo_seq(),
            old(self).undo_seq().len() > 0 ==> r == Some(old(self).undo_seq().last())
                && final(self).undo_seq() == old(self).undo_seq().drop_last(),
            final(self).redo_seq() == old(self).redo_seq(),
            final(self).capacity() == old(self).capacity(),
    {
        self.undo.pop_back()
    }

    /// Pop the most recent snapshot from the redo stack.
    pub fn pop_redo(&mut self) -> (r: Option<T>)
        requires
            old(self).well_formed(),
        ensures
            final(self).well_formed(),
            old(self).redo_seq().len() == 0 ==> r is None && final(self).redo_seq() == old(self).redo_seq(),
            old(self).redo_seq().len() > 0 ==> r == Some(old(self).redo_seq().last())
                && final(self).redo_seq() == old(self).redo_seq().drop_last(),
            final(self).undo_seq() == old(self).undo_seq(),
            final(self).capacity() == old(self).capacity(),
    {
        self.redo.pop()
    }

    /// Push a snapshot onto the redo stack (used during undo to preserve current state).
    pub fn push_redo(&mut self, snapshot: T)
        requires
            old(self).well_formed(),
        ensures
            final(self).well_formed(),
            final(self).redo_seq() == old(self).redo_seq().push(snapshot),
            final(self).undo_seq() == old(self).undo_seq(),
            final(self).capacity() == old(self).capacity(),
    {
        self.redo.push(snapshot);
    }

    /// Push a snapshot onto the undo stack without clearing redo (used during redo).
    pub fn push_undo(&mut self, snapshot: T)
        requires
            old(self).well_formed(),
        ensures
            final(self).well_formed(),
            final(self).undo_seq() == bounded_push(old(self).undo_seq(), old(self).capacity(), snapshot),
            final(self).redo_seq() == old(self).redo_seq(),
            final(self).capacity() == old(self).capacity(),
    {
        if self.undo.len() == self.capacity {
            let _ = self.undo.pop_front();
        }
        self.undo.push_back(snapshot);
        assert(self.undo@ =~= bounded_push(old(self).undo@, old(self).capacity as nat, snapshot));
    }

    /// Whether there are entries available to undo.
    pub fn can_undo(&self) -> (b: bool)
        ensures
            b == (self.undo_seq().len() > 0),
    {
        self.undo.len() > 0
    }

    /// Whether there are entries available to redo.
    pub fn can_redo(&self) -> (b: bool)
        ensures
            b == (self.redo_seq().len() > 0),
    {
        !self.redo.is_empty()
    }
}

} // verus!
