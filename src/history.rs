//! Bounded undo and redo stacks of (snapshot, action) pairs.
use std::collections::VecDeque;
use vstd::prelude::*;

verus! {

/// The undo stack after pushing `e` with capacity `cap`: the oldest entry
/// leaves first when the stack is full.
pub open spec fn after_push<T>(undo: Seq<T>, cap: usize, e: T) -> Seq<T> {
    (if undo.len() == cap && undo.len() > 0 { undo.subrange(1, undo.len() as int) } else { undo }).push(e)
}

/// The undo stack after pushing each of `items`, in order, onto `undo`.
pub open spec fn push_all<T>(undo: Seq<T>, cap: usize, items: Seq<T>) -> Seq<T>
    decreases items.len(),
{
    if items.len() == 0 {
        undo
    } else {
        after_push(push_all(undo, cap, items.drop_last()), cap, items.last())
    }
}

/// Pushing any number of entries onto an empty stack of capacity `cap` keeps
/// exactly the newest `cap` of them (all of them if there are fewer), oldest
/// first: the older ones are evicted.
pub proof fn lemma_capacity_window<T>(cap: usize, items: Seq<T>)
    requires
        cap > 0,
    ensures
        push_all(Seq::<T>::empty(), cap, items) == items.subrange(
            if items.len() > cap { items.len() - cap } else { 0 },
            items.len() as int,
        ),
    decreases items.len(),
{
    if items.len() > 0 {
        let n = items.len() as int;
        let front = items.drop_last();
        lemma_capacity_window(cap, front);
        let prev = push_all(Seq::<T>::empty(), cap, front);
        if n - 1 >= cap {
            assert(prev.len() == cap);
            assert(prev.subrange(1, prev.len() as int).push(items.last()) =~= items.subrange(n - cap, n));
        } else {
            assert(prev.push(items.last()) =~= items.subrange(0, n));
        }
    } else {
        assert(items.subrange(0, 0) =~= Seq::<T>::empty());
    }
}

/// Which step was taken last.
#[derive(PartialEq, Eq, Structural, Clone, Copy, Debug)]
pub enum LastStep {
    /// A push, or nothing yet.
    Pushed,
    Undid,
    Redid,
}

/// Undo and redo stacks, each entry a snapshot and the action that caused it.
pub struct History<S, A> {
    pub undo_stack: VecDeque<(S, A)>,
    pub redo_stack: VecDeque<(S, A)>,
    pub last_step: LastStep,
    pub max_history: usize,
}

impl<S, A> History<S, A> {
    /// Empty stacks holding at most `max_history` undo entries.
    pub fn new(max_history: usize) -> (r: Self)
        ensures
            r.undo_stack@.len() == 0,
            r.redo_stack@.len() == 0,
            r.max_history == max_history,
            r.last_step == LastStep::Pushed,
    {
        History { undo_stack: VecDeque::new(), redo_stack: VecDeque::new(), last_step: LastStep::Pushed, max_history }
    }

    /// Records `state` with the `action` that produced it. A full undo stack
    /// loses its oldest entry; the redo stack is cleared, since a new branch of
    /// history starts here.
    pub fn push(&mut self, state: S, action: A)
        ensures
            final(self).undo_stack@ == after_push(old(self).undo_stack@, old(self).max_history, (state, action)),
            final(self).redo_stack@.len() == 0,
            final(self).max_history == old(self).max_history,
            final(self).last_step == LastStep::Pushed,
    {
        if self.undo_stack.len() == self.max_history && self.undo_stack.len() > 0 {
            self.undo_stack.pop_front();
        }
        self.undo_stack.push_back((state, action));
        self.redo_stack = VecDeque::new();
        self.last_step = LastStep::Pushed;
    }

    /// Steps back: takes the newest undo entry, records `current` with that
    /// entry's action on the redo stack, and returns the entry's snapshot; `None`
    /// when there is nothing to undo, with nothing changed.
    pub fn undo(&mut self, current: S) -> (r: Option<S>)
        ensures
            old(self).undo_stack@.len() == 0 ==> {
                &&& r is None
                &&& final(self).undo_stack@ == old(self).undo_stack@
                &&& final(self).redo_stack@ == old(self).redo_stack@
                &&& final(self).max_history == old(self).max_history
                &&& final(self).last_step == old(self).last_step
            },
            old(self).undo_stack@.len() > 0 ==> {
                let n = old(self).undo_stack@.len() as int;
                let e = old(self).undo_stack@[n - 1];
                &&& r == Some(e.0)
                &&& final(self).undo_stack@ == old(self).undo_stack@.subrange(0, n - 1)
                &&& final(self).redo_stack@ == old(self).redo_stack@.push((current, e.1))
                &&& final(self).max_history == old(self).max_history
                &&& final(self).last_step == LastStep::Undid
            },
    {
        match self.undo_stack.pop_back() {
            Some((state, action)) => {
                self.redo_stack.push_back((current, action));
                self.last_step = LastStep::Undid;
                Some(state)
            },
            None => None,
        }
    }

    /// The mirror of `undo`: takes the newest redo entry, records `current`
    /// with its action on the undo stack, and returns its snapshot.
    pub fn redo(&mut self, current: S) -> (r: Option<S>)
        ensures
            old(self).redo_stack@.len() == 0 ==> {
                &&& r is None
                &&& final(self).undo_stack@ == old(self).undo_stack@
                &&& final(self).redo_stack@ == old(self).redo_stack@
                &&& final(self).max_history == old(self).max_history
                &&& final(self).last_step == old(self).last_step
            },
            old(self).redo_stack@.len() > 0 ==> {
                let n = old(self).redo_stack@.len() as int;
                let e = old(self).redo_stack@[n - 1];
                &&& r == Some(e.0)
                &&& final(self).redo_stack@ == old(self).redo_stack@.subrange(0, n - 1)
                &&& final(self).undo_stack@ == old(self).undo_stack@.push((current, e.1))
                &&& final(self).max_history == old(self).max_history
                &&& final(self).last_step == LastStep::Redid
            },
    {
        match self.redo_stack.pop_back() {
            Some((state, action)) => {
                self.undo_stack.push_back((current, action));
                self.last_step = LastStep::Redid;
                Some(state)
            },
            None => None,
        }
    }

    /// The action that the last undo or redo stepped over, if the last step was
    /// one of those.
    pub fn last_action(&self) -> (r: Option<&A>)
        ensures
            self.last_step == LastStep::Undid && self.redo_stack@.len() > 0 ==> r == Some(
                &self.redo_stack@[self.redo_stack@.len() - 1].1,
            ),
            self.last_step == LastStep::Redid && self.undo_stack@.len() > 0 ==> r == Some(
                &self.undo_stack@[self.undo_stack@.len() - 1].1,
            ),
            self.last_step == LastStep::Pushed ==> r is None,
    {
        match self.last_step {
            LastStep::Undid => {
                let n = self.redo_stack.len();
                if n > 0 { Some(&self.redo_stack[n - 1].1) } else { None }
            },
            LastStep::Redid => {
                let n = self.undo_stack.len();
                if n > 0 { Some(&self.undo_stack[n - 1].1) } else { None }
            },
            LastStep::Pushed => None,
        }
    }
}

} // verus!
