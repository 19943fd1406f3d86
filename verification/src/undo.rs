//! A history of states with undo and redo.

use vstd::prelude::*;

verus! {

/// What an undo stack holds: every committed state in order, which of them is
/// the current one, and an edit of it that is not committed yet.
pub struct UndoView<T> {
    /// The committed states, oldest first. Never empty.
    pub history: Seq<T>,
    /// Index of the committed state that is current.
    pub idx: int,
    /// The edited copy of the current state, while an edit is under way.
    pub active: Option<T>,
}

impl<T> UndoView<T> {
    /// The stack that holds `initial` alone.
    pub open spec fn initial(initial: T) -> Self {
        UndoView { history: seq![initial], idx: 0, active: None }
    }

    /// The index points into the history.
    pub open spec fn wf(self) -> bool {
        0 <= self.idx < self.history.len()
    }

    /// The state that a reader sees: the edit under way, else the committed state.
    pub open spec fn current(self) -> T {
        match self.active {
            Some(a) => a,
            None => self.history[self.idx],
        }
    }

    pub open spec fn can_undo(self) -> bool {
        self.idx > 0
    }

    pub open spec fn can_redo(self) -> bool {
        self.idx < self.history.len() - 1
    }

    /// One step back, dropping an edit under way. At the oldest state nothing changes.
    pub open spec fn undone(self) -> Self {
        if self.can_undo() {
            UndoView { history: self.history, idx: self.idx - 1, active: None }
        } else {
            self
        }
    }

    /// One step forward, dropping an edit under way. At the newest state nothing changes.
    pub open spec fn redone(self) -> Self {
        if self.can_redo() {
            UndoView { history: self.history, idx: self.idx + 1, active: None }
        } else {
            self
        }
    }

    /// `state` becomes the current state: what could be redone is forgotten,
    /// and so is an edit under way.
    pub open spec fn pushed(self, state: T) -> Self {
        UndoView {
            history: self.history.subrange(0, self.idx + 1).push(state),
            idx: self.idx + 1,
            active: None,
        }
    }

    /// The edit under way, if there is one, becomes the current state.
    pub open spec fn committed(self) -> Self {
        match self.active {
            Some(a) => self.pushed(a),
            None => self,
        }
    }
}

/// A linear history of states with one current state and room for an edit
/// that is not committed yet. Reading goes to the edit if there is one,
/// writing starts one from a copy of the current state.
#[derive(Debug, Clone)]
pub struct UndoStack<T> {
    /// The states before the current one, oldest first.
    past: Vec<T>,
    /// The committed state that is current.
    present: T,
    /// The states after the current one, newest first.
    future: Vec<T>,
    active: Option<T>,
}

impl<T> View for UndoStack<T> {
    type V = UndoView<T>;

    closed spec fn view(&self) -> UndoView<T> {
        UndoView {
            history: self.past@ + seq![self.present] + self.future@.reverse(),
            idx: self.past@.len() as int,
            active: self.active,
        }
    }
}

impl<T> UndoStack<T> {
    /// Every stack is well formed: its index points into its history.
    pub proof fn lemma_wf(&self)
        ensures
            self@.wf(),
    {
    }

    pub fn new(initial_state: T) -> (r: Self)
        ensures
            r@ == UndoView::initial(initial_state),
    {
        let r = UndoStack {
            past: Vec::new(),
            present: initial_state,
            future: Vec::new(),
            active: None,
        };
        assert(r@.history =~= seq![initial_state]);
        r
    }

    #[inline]
    pub fn can_undo(&self) -> (r: bool)
        ensures
            r == self@.can_undo(),
    {
        self.past.len() > 0
    }

    pub fn undo(&mut self)
        ensures
            final(self)@ == old(self)@.undone(),
    {
        match self.past.pop() {
            Some(mut state) => {
                core::mem::swap(&mut self.present, &mut state);
                self.future.push(state);
                self.active = None;
                assert(final(self)@.history =~= old(self)@.history);
            },
            None => {},
        }
    }

    #[inline]
    pub fn can_redo(&self) -> (r: bool)
        ensures
            r == self@.can_redo(),
    {
        self.future.len() > 0
    }

    pub fn redo(&mut self)
        ensures
            final(self)@ == old(self)@.redone(),
    {
        match self.future.pop() {
            Some(mut state) => {
                core::mem::swap(&mut self.present, &mut state);
                self.past.push(state);
                self.active = None;
                assert(final(self)@.history =~= old(self)@.history);
            },
            None => {},
        }
    }

    pub fn push_state(&mut self, new_state: T)
        ensures
            final(self)@ == old(self)@.pushed(new_state),
    {
        let mut state = new_state;
        self.active = None;
        self.future.clear();
        core::mem::swap(&mut self.present, &mut state);
        self.past.push(state);
        assert(final(self)@.history =~= old(self)@.pushed(new_state).history);
    }

    pub fn commit(&mut self)
        ensures
            final(self)@ == old(self)@.committed(),
    {
        match self.active.take() {
            Some(new_state) => {
                self.push_state(new_state);
            },
            None => {},
        }
    }
}

impl<T: Default> Default for UndoStack<T> {
    fn default() -> (r: Self)
        ensures
            r@.history.len() == 1,
            call_ensures(T::default, (), r@.history[0]),
            r@.idx == 0,
            r@.active is None,
    {
        let r = Self::new(T::default());
        r
    }
}

impl<T> core::ops::Deref for UndoStack<T> {
    type Target = T;

    fn deref(&self) -> (r: &T)
        ensures
            *r == self@.current(),
    {
        match &self.active {
            Some(a) => a,
            None => &self.present,
        }
    }
}

impl<T: Clone> core::ops::DerefMut for UndoStack<T> {
    /// Hands out the edit under way. Where there is none, one is started from
    /// a clone of the current state.
    fn deref_mut(&mut self) -> (r: &mut T)
        ensures
            old(self)@.active is Some ==> *r == old(self)@.current(),
            old(self)@.active is None ==> cloned(old(self)@.current(), *r),
            final(self)@ == (UndoView { active: Some(*final(r)), ..old(self)@ }),
    {
        if self.active.is_none() {
            let copy = self.present.clone();
            self.active = Some(copy);
        }
        match &mut self.active {
            Some(a) => a,
            None => vstd::pervasive::unreached(),
        }
    }
}

/// Undoing and then redoing comes back to the same committed state,
/// wherever there was something to undo.
pub proof fn lemma_undo_then_redo<T>(v: UndoView<T>)
    requires
        v.wf(),
        v.can_undo(),
    ensures
        v.undone().redone() == (UndoView { active: None, ..v }),
{
}

/// After a new state was pushed nothing is left to redo.
pub proof fn lemma_push_forgets_redo<T>(v: UndoView<T>, state: T)
    requires
        v.wf(),
    ensures
        v.pushed(state).wf(),
        !v.pushed(state).can_redo(),
        v.pushed(state).current() == state,
        v.pushed(state).undone().current() == v.history[v.idx],
{
}

} // verus!
