//! Undo/redo history: two stacks of whole-buffer snapshots. A checkpoint
//! pushes the pre-edit snapshot and clears the redo stack; undo and redo
//! move one snapshot across, pushing the current state to the other side.
use vstd::prelude::*;

verus! {

/// What a checkpoint does to the two stacks.
pub open spec fn checkpoint_spec(
    undo: Seq<Seq<Seq<u8>>>,
    snap: Seq<Seq<u8>>,
) -> (Seq<Seq<Seq<u8>>>, Seq<Seq<Seq<u8>>>) {
    (undo.push(snap), Seq::<Seq<Seq<u8>>>::empty())
}

/// What undo does: with an empty undo stack nothing moves; otherwise the
/// top snapshot comes off, the current buffer goes onto the redo stack, and
/// the popped snapshot becomes the buffer.
pub open spec fn undo_spec(
    undo: Seq<Seq<Seq<u8>>>,
    redo: Seq<Seq<Seq<u8>>>,
    cur: Seq<Seq<u8>>,
) -> (Seq<Seq<Seq<u8>>>, Seq<Seq<Seq<u8>>>, Seq<Seq<u8>>) {
    if undo.len() == 0 {
        (undo, redo, cur)
    } else {
        (undo.drop_last(), redo.push(cur), undo.last())
    }
}

/// What redo does: the mirror image of undo.
pub open spec fn redo_spec(
    undo: Seq<Seq<Seq<u8>>>,
    redo: Seq<Seq<Seq<u8>>>,
    cur: Seq<Seq<u8>>,
) -> (Seq<Seq<Seq<u8>>>, Seq<Seq<Seq<u8>>>, Seq<Seq<u8>>) {
    if redo.len() == 0 {
        (undo, redo, cur)
    } else {
        (undo.push(cur), redo.drop_last(), redo.last())
    }
}

pub struct History {
    undo: Vec<Vec<Vec<u8>>>,
    redo: Vec<Vec<Vec<u8>>>,
}

proof fn lemma_deep_push(a: Vec<Vec<Vec<u8>>>, b: Vec<Vec<Vec<u8>>>, x: Vec<Vec<u8>>)
    requires
        b@ == a@.push(x),
    ensures
        b.deep_view() == a.deep_view().push(x.deep_view()),
{
    assert forall|j: int| 0 <= j < b@.len() implies b.deep_view()[j] == a.deep_view().push(
        x.deep_view(),
    )[j] by {
        if j < a@.len() {
            assert(b@[j] == a@[j]);
        } else {
            assert(b@[j] == x);
        }
    }
    assert(b.deep_view() =~= a.deep_view().push(x.deep_view()));
}

proof fn lemma_deep_drop_last(a: Vec<Vec<Vec<u8>>>, b: Vec<Vec<Vec<u8>>>)
    requires
        a@.len() > 0,
        b@ == a@.drop_last(),
    ensures
        b.deep_view() == a.deep_view().drop_last(),
{
    assert forall|j: int| 0 <= j < b@.len() implies b.deep_view()[j]
        == a.deep_view().drop_last()[j] by {
        assert(b@[j] == a@[j]);
    }
    assert(b.deep_view() =~= a.deep_view().drop_last());
}

impl History {
    /// Snapshots that undo would restore, oldest first.
    pub closed spec fn undo_stack(&self) -> Seq<Seq<Seq<u8>>> {
        self.undo.deep_view()
    }

    /// Snapshots that redo would restore, oldest first.
    pub closed spec fn redo_stack(&self) -> Seq<Seq<Seq<u8>>> {
        self.redo.deep_view()
    }

    pub fn new() -> (r: History)
        ensures
            r.undo_stack().len() == 0,
            r.redo_stack().len() == 0,
    {
        History { undo: Vec::new(), redo: Vec::new() }
    }

    /// Record the pre-edit snapshot and clear the redo stack.
    pub fn checkpoint(&mut self, snap: Vec<Vec<u8>>)
        ensures
            (final(self).undo_stack(), final(self).redo_stack()) == checkpoint_spec(
                old(self).undo_stack(),
                snap.deep_view(),
            ),
    {
        let ghost pre = self.undo;
        self.undo.push(snap);
        self.redo.clear();
        proof {
            lemma_deep_push(pre, self.undo, snap);
            assert(self.redo.deep_view() =~= Seq::<Seq<Seq<u8>>>::empty());
        }
    }

    /// Pop the undo stack; hand back the snapshot to restore, pushing the
    /// current state onto the redo stack. `None` when there is nothing to
    /// undo, in which case nothing changes.
    pub fn undo(&mut self, current: Vec<Vec<u8>>) -> (r: Option<Vec<Vec<u8>>>)
        ensures
            ({
                let (u2, r2, b2) = undo_spec(
                    old(self).undo_stack(),
                    old(self).redo_stack(),
                    current.deep_view(),
                );
                final(self).undo_stack() == u2 && final(self).redo_stack() == r2 && (match r {
                    Some(snap) => old(self).undo_stack().len() > 0 && snap.deep_view() == b2,
                    None => old(self).undo_stack().len() == 0,
                })
            }),
    {
        let ghost preu = self.undo;
        let ghost prer = self.redo;
        let popped = self.undo.pop();
        match popped {
            Some(snap) => {
                self.redo.push(current);
                proof {
                    lemma_deep_drop_last(preu, self.undo);
                    lemma_deep_push(prer, self.redo, current);
                    assert(snap.deep_view() == preu.deep_view().last());
                }
                Some(snap)
            },
            None => None,
        }
    }

    /// Pop the redo stack; the mirror of `undo`.
    pub fn redo(&mut self, current: Vec<Vec<u8>>) -> (r: Option<Vec<Vec<u8>>>)
        ensures
            ({
                let (u2, r2, b2) = redo_spec(
                    old(self).undo_stack(),
                    old(self).redo_stack(),
                    current.deep_view(),
                );
                final(self).undo_stack() == u2 && final(self).redo_stack() == r2 && (match r {
                    Some(snap) => old(self).redo_stack().len() > 0 && snap.deep_view() == b2,
                    None => old(self).redo_stack().len() == 0,
                })
            }),
    {
        let ghost preu = self.undo;
        let ghost prer = self.redo;
        let popped = self.redo.pop();
        match popped {
            Some(snap) => {
                self.undo.push(current);
                proof {
                    lemma_deep_drop_last(prer, self.redo);
                    lemma_deep_push(preu, self.undo, current);
                    assert(snap.deep_view() == prer.deep_view().last());
                }
                Some(snap)
            },
            None => None,
        }
    }

    /// How many snapshots undo could restore.
    pub fn undo_len(&self) -> (n: usize)
        ensures
            n == self.undo_stack().len(),
    {
        self.undo.len()
    }

    /// How many snapshots redo could restore.
    pub fn redo_len(&self) -> (n: usize)
        ensures
            n == self.redo_stack().len(),
    {
        self.redo.len()
    }

    /// Forget everything, as a document switch does.
    pub fn reset(&mut self)
        ensures
            final(self).undo_stack().len() == 0,
            final(self).redo_stack().len() == 0,
    {
        self.undo.clear();
        self.redo.clear();
    }
}

} // verus!
