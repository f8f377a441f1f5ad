use vstd::prelude::*;

use crate::block::Block;

verus! {

/// One cell edit: the cell and its block before and after.
#[derive(Clone, Copy, Debug, PartialEq, Eq, Structural)]
pub struct EditChange {
    pub x: i32,
    pub y: i32,
    pub old_block: Block,
    pub new_block: Block,
}

/// A group of edits that undo and redo treat as one.
#[derive(Debug)]
pub struct EditAction {
    pub changes: Vec<EditChange>,
}

impl Clone for EditAction {
    fn clone(&self) -> (r: Self)
        ensures
            r.changes@ == self.changes@,
    {
        let mut changes: Vec<EditChange> = Vec::new();
        let mut i: usize = 0;
        while i < self.changes.len()
            invariant
                i <= self.changes.len(),
                changes@ == self.changes@.subrange(0, i as int),
            decreases self.changes.len() - i,
        {
            changes.push(self.changes[i]);
            i = i + 1;
            proof {
                assert(changes@ =~= self.changes@.subrange(0, i as int));
            }
        }
        proof {
            assert(changes@ =~= self.changes@);
        }
        EditAction { changes }
    }
}

/// The edits of each action on a stack, oldest action first.
pub open spec fn actions(s: Seq<EditAction>) -> Seq<Seq<EditChange>> {
    s.map_values(|a: EditAction| a.changes@)
}

/// The undo and redo stacks, and the action being grouped, if any; what
/// they hold is what `state()` and `pending()` say.
pub struct History {
    pub undo_stack: Vec<EditAction>,
    pub redo_stack: Vec<EditAction>,
    pub current_action: Option<EditAction>,
}

/// The abstract state of a history: both stacks, as lists of edit lists.
pub struct HistoryState {
    pub undo: Seq<Seq<EditChange>>,
    pub redo: Seq<Seq<EditChange>>,
}

/// Undo: the newest action moves from the undo stack to the redo stack.
pub open spec fn spec_undo(s: HistoryState) -> (HistoryState, Option<Seq<EditChange>>) {
    if s.undo.len() == 0 {
        (s, None)
    } else {
        (
            HistoryState { undo: s.undo.drop_last(), redo: s.redo.push(s.undo.last()) },
            Some(s.undo.last()),
        )
    }
}

/// Redo: the newest undone action moves back to the undo stack.
pub open spec fn spec_redo(s: HistoryState) -> (HistoryState, Option<Seq<EditChange>>) {
    if s.redo.len() == 0 {
        (s, None)
    } else {
        (
            HistoryState { undo: s.undo.push(s.redo.last()), redo: s.redo.drop_last() },
            Some(s.redo.last()),
        )
    }
}

/// Committing an action: it goes on the undo stack and the redo stack is
/// emptied.
pub open spec fn spec_commit(s: HistoryState, a: Seq<EditChange>) -> HistoryState {
    HistoryState { undo: s.undo.push(a), redo: Seq::empty() }
}

/// Recording a list of edits (of length 0 or 1 for a single cell): into an
/// open action if there is one, else as an action of its own when there is
/// an edit.
pub open spec fn spec_record(
    s: HistoryState,
    pending: Option<Seq<EditChange>>,
    cs: Seq<EditChange>,
) -> (HistoryState, Option<Seq<EditChange>>) {
    match pending {
        Some(a) => (s, Some(a + cs)),
        None => if cs.len() > 0 {
            (spec_commit(s, cs), None)
        } else {
            (s, None)
        },
    }
}

/// Closing an open action: committed when it holds an edit, else dropped.
pub open spec fn spec_end(s: HistoryState, pending: Option<Seq<EditChange>>) -> HistoryState {
    match pending {
        Some(a) => if a.len() > 0 {
            spec_commit(s, a)
        } else {
            s
        },
        None => s,
    }
}

impl History {
    /// Both stacks, as lists of edit lists.
    pub open spec fn state(&self) -> HistoryState {
        HistoryState { undo: actions(self.undo_stack@), redo: actions(self.redo_stack@) }
    }

    /// The edits grouped so far by an open action, if one is open.
    pub open spec fn pending(&self) -> Option<Seq<EditChange>> {
        match self.current_action {
            Some(a) => Some(a.changes@),
            None => None,
        }
    }

    pub fn new() -> (r: Self)
        ensures
            r.state() == (HistoryState { undo: Seq::empty(), redo: Seq::empty() }),
            r.pending() is None,
    {
        let r = History { undo_stack: Vec::new(), redo_stack: Vec::new(), current_action: None };
        proof {
            assert(r.state().undo =~= Seq::empty());
            assert(r.state().redo =~= Seq::empty());
        }
        r
    }

    /// Opens an action: the following records are grouped until
    /// `end_action`. An action already open is dropped.
    pub fn begin_action(&mut self)
        ensures
            final(self).state() == old(self).state(),
            final(self).pending() == Some(Seq::<EditChange>::empty()),
    {
        self.current_action = Some(EditAction { changes: Vec::new() });
    }

    /// Records one edit: into the open action if there is one, else as an
    /// action of its own, which empties the redo stack.
    pub fn record(&mut self, x: i32, y: i32, old_block: Block, new_block: Block)
        ensures
            (final(self).state(), final(self).pending()) == spec_record(
                old(self).state(),
                old(self).pending(),
                seq![EditChange { x, y, old_block, new_block }],
            ),
    {
        let ch = EditChange { x, y, old_block, new_block };
        match self.current_action.take() {
            Some(mut action) => {
                let ghost a0 = action.changes@;
                action.changes.push(ch);
                self.current_action = Some(action);
                proof {
                    assert(a0.push(ch) =~= a0 + seq![ch]);
                }
            },
            None => {
                let mut changes: Vec<EditChange> = Vec::new();
                changes.push(ch);
                let action = EditAction { changes };
                self.undo_stack.push(action);
                self.redo_stack.clear();
                proof {
                    assert(actions(self.undo_stack@) =~= actions(old(self).undo_stack@).push(
                        seq![ch],
                    ));
                    assert(actions(self.redo_stack@) =~= Seq::empty());
                }
            },
        }
    }

    /// Closes the open action: a non-empty one goes on the undo stack and
    /// empties the redo stack; an empty one is dropped.
    pub fn end_action(&mut self)
        ensures
            final(self).pending() is None,
            final(self).state() == spec_end(old(self).state(), old(self).pending()),
    {
        if let Some(action) = self.current_action.take() {
            if action.changes.len() > 0 {
                let ghost a = action.changes@;
                self.undo_stack.push(action);
                self.redo_stack.clear();
                proof {
                    assert(actions(self.undo_stack@) =~= actions(old(self).undo_stack@).push(a));
                    assert(actions(self.redo_stack@) =~= Seq::empty());
                }
            }
        }
    }

    /// Takes back the newest action, which moves to the redo stack.
    pub fn undo(&mut self) -> (r: Option<EditAction>)
        ensures
            (final(self).state(), match r {
                Some(a) => Some(a.changes@),
                None => None,
            }) == spec_undo(old(self).state()),
            final(self).pending() == old(self).pending(),
    {
        let action = self.undo_stack.pop()?;
        let ghost a = action.changes@;
        self.redo_stack.push(action.clone());
        proof {
            assert(actions(self.undo_stack@) =~= actions(old(self).undo_stack@).drop_last());
            assert(actions(self.redo_stack@) =~= actions(old(self).redo_stack@).push(a));
        }
        Some(action)
    }

    /// Applies again the newest undone action, which moves back to the
    /// undo stack.
    pub fn redo(&mut self) -> (r: Option<EditAction>)
        ensures
            (final(self).state(), match r {
                Some(a) => Some(a.changes@),
                None => None,
            }) == spec_redo(old(self).state()),
            final(self).pending() == old(self).pending(),
    {
        let action = self.redo_stack.pop()?;
        let ghost a = action.changes@;
        self.undo_stack.push(action.clone());
        proof {
            assert(actions(self.redo_stack@) =~= actions(old(self).redo_stack@).drop_last());
            assert(actions(self.undo_stack@) =~= actions(old(self).undo_stack@).push(a));
        }
        Some(action)
    }

    pub fn stacks(&self) -> (r: (&[EditAction], &[EditAction]))
        ensures
            actions(r.0@) == self.state().undo,
            actions(r.1@) == self.state().redo,
    {
        (self.undo_stack.as_slice(), self.redo_stack.as_slice())
    }
}

/// Undo then redo leaves the history as it was, and redo hands back the
/// action that undo took; likewise redo then undo.
pub proof fn lemma_undo_redo(s: HistoryState)
    ensures
        s.undo.len() > 0 ==> spec_redo(spec_undo(s).0).0 == s && spec_redo(spec_undo(s).0).1
            == spec_undo(s).1,
        s.redo.len() > 0 ==> spec_undo(spec_redo(s).0).0 == s && spec_undo(spec_redo(s).0).1
            == spec_redo(s).1,
        s.undo.len() == 0 ==> spec_undo(s) == (s, None::<Seq<EditChange>>),
        s.redo.len() == 0 ==> spec_redo(s) == (s, None::<Seq<EditChange>>),
{
    if s.undo.len() > 0 {
        assert(s.undo.drop_last().push(s.undo.last()) =~= s.undo);
        assert(s.redo.push(s.undo.last()).drop_last() =~= s.redo);
    }
    if s.redo.len() > 0 {
        assert(s.redo.drop_last().push(s.redo.last()) =~= s.redo);
        assert(s.undo.push(s.redo.last()).drop_last() =~= s.undo);
    }
}

/// A committed action is the next one undone, and nothing is left to redo.
pub proof fn lemma_commit_then_undo(s: HistoryState, a: Seq<EditChange>)
    ensures
        spec_undo(spec_commit(s, a)).1 == Some(a),
        spec_undo(spec_commit(s, a)).0.undo == s.undo,
        spec_redo(spec_commit(s, a)).1 is None,
{
    assert(s.undo.push(a).drop_last() =~= s.undo);
}

/// The history after recording the single edits `cs`, one `record` call
/// each, in order.
pub open spec fn records(
    s: HistoryState,
    pending: Option<Seq<EditChange>>,
    cs: Seq<EditChange>,
) -> (HistoryState, Option<Seq<EditChange>>)
    decreases cs.len(),
{
    if cs.len() == 0 {
        (s, pending)
    } else {
        let r = records(s, pending, cs.drop_last());
        spec_record(r.0, r.1, seq![cs.last()])
    }
}

proof fn lemma_records_open(s: HistoryState, cs: Seq<EditChange>)
    ensures
        records(s, Some(Seq::empty()), cs) == (s, Some(cs)),
    decreases cs.len(),
{
    if cs.len() > 0 {
        lemma_records_open(s, cs.drop_last());
        assert(cs.drop_last() + seq![cs.last()] =~= cs);
    }
}

/// Edits recorded between `begin_action` and `end_action` form one action:
/// while it is open the stacks stay as they were and the edits gather in
/// call order; closing it puts them on the undo stack as one action and
/// empties the redo stack, or, with no edit recorded, changes nothing. A
/// second close changes nothing.
pub proof fn lemma_grouped_action(s: HistoryState, cs: Seq<EditChange>)
    ensures
        records(s, Some(Seq::empty()), cs) == (s, Some(cs)),
        spec_end(s, Some(cs)) == if cs.len() > 0 {
            HistoryState { undo: s.undo.push(cs), redo: Seq::empty() }
        } else {
            s
        },
        spec_end(spec_end(s, Some(cs)), None) == spec_end(s, Some(cs)),
{
    lemma_records_open(s, cs);
}

} // verus!
