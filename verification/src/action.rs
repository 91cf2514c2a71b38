//! An undo/redo history of actions that users of the library define.
//!
//! An action knows how to perform and revert itself on some context; the
//! manager keeps the performed actions for undo and the undone ones for redo.
//! What performing or reverting means is each action's own business: it
//! says so through the spec functions `performs` and `reverts`, and the
//! manager's contracts say which action was performed or reverted, on which
//! context, and which action ends up on which stack.

use vstd::prelude::*;

verus! {

/// An action that can be performed on a context and reverted.
pub trait Action<C>: Sized {
    /// Performing this action turns the context `before` into `after` and
    /// leaves the action as `next`.
    spec fn performs(&self, before: C, after: C, next: Self) -> bool;

    /// Reverting this action turns the context `before` into `after` and
    /// leaves the action as `next`.
    spec fn reverts(&self, before: C, after: C, next: Self) -> bool;

    /// Performs the action.
    fn execute(&mut self, commands: &mut C)
        ensures
            old(self).performs(*old(commands), *final(commands), *final(self)),
    ;

    /// Reverts the action.
    fn undo(&mut self, commands: &mut C)
        ensures
            old(self).reverts(*old(commands), *final(commands), *final(self)),
    ;
}

/// The undo and redo stacks of actions.
pub struct ActionManager<A> {
    undo_stack: Vec<A>,
    redo_stack: Vec<A>,
}

impl<A> ActionManager<A> {
    /// The performed actions, oldest first.
    pub closed spec fn done(&self) -> Seq<A> {
        self.undo_stack@
    }

    /// The undone actions, most recently undone last.
    pub closed spec fn undone(&self) -> Seq<A> {
        self.redo_stack@
    }

    /// Empty stacks.
    pub fn new() -> (m: Self)
        ensures
            m.done() == Seq::<A>::empty(),
            m.undone() == Seq::<A>::empty(),
    {
        ActionManager { undo_stack: Vec::new(), redo_stack: Vec::new() }
    }

    /// Performs `action` and keeps it for undo; nothing can be redone after.
    pub fn execute<C>(&mut self, action: A, commands: &mut C) where A: Action<C>
        ensures
            final(self).done().len() == old(self).done().len() + 1,
            final(self).done().drop_last() == old(self).done(),
            action.performs(*old(commands), *final(commands), final(self).done().last()),
            final(self).undone() == Seq::<A>::empty(),
    {
        let mut action = action;
        action.execute(commands);
        self.undo_stack.push(action);
        self.redo_stack.clear();
        proof {
            assert(self.undo_stack@.drop_last() =~= old(self).undo_stack@);
        }
    }

    /// Reverts the newest performed action, if any, and keeps it for redo.
    pub fn undo<C>(&mut self, commands: &mut C) where A: Action<C>
        ensures
            old(self).done().len() == 0 ==> {
                &&& final(self).done() == old(self).done()
                &&& final(self).undone() == old(self).undone()
                &&& *final(commands) == *old(commands)
            },
            old(self).done().len() > 0 ==> {
                &&& final(self).done() == old(self).done().drop_last()
                &&& final(self).undone().len() == old(self).undone().len() + 1
                &&& final(self).undone().drop_last() == old(self).undone()
                &&& old(self).done().last().reverts(
                    *old(commands),
                    *final(commands),
                    final(self).undone().last(),
                )
            },
    {
        if let Some(action) = self.undo_stack.pop() {
            let mut action = action;
            action.undo(commands);
            self.redo_stack.push(action);
            proof {
                assert(self.redo_stack@.drop_last() =~= old(self).redo_stack@);
            }
        }
    }

    /// Performs again the most recently undone action, if any, and keeps it
    /// for undo.
    pub fn redo<C>(&mut self, commands: &mut C) where A: Action<C>
        ensures
            old(self).undone().len() == 0 ==> {
                &&& final(self).done() == old(self).done()
                &&& final(self).undone() == old(self).undone()
                &&& *final(commands) == *old(commands)
            },
            old(self).undone().len() > 0 ==> {
                &&& final(self).undone() == old(self).undone().drop_last()
                &&& final(self).done().len() == old(self).done().len() + 1
                &&& final(self).done().drop_last() == old(self).done()
                &&& old(self).undone().last().performs(
                    *old(commands),
                    *final(commands),
                    final(self).done().last(),
                )
            },
    {
        if let Some(action) = self.redo_stack.pop() {
            let mut action = action;
            action.execute(commands);
            self.undo_stack.push(action);
            proof {
                assert(self.undo_stack@.drop_last() =~= old(self).undo_stack@);
            }
        }
    }
}

impl<A> Default for ActionManager<A> {
    fn default() -> (m: Self)
        ensures
            m.done() == Seq::<A>::empty(),
            m.undone() == Seq::<A>::empty(),
    {
        ActionManager::new()
    }
}

/// Law: an undo followed by a redo gives the undone list back exactly and
/// puts an action back on top of the done list, which is otherwise as it
/// was; when reverting and performing left the action as it was, the done
/// list is exactly as before too. `m1` is the manager after `undo` on `m0`,
/// `m2` the manager after `redo` on `m1`.
pub proof fn lemma_undo_then_redo<A>(m0: ActionManager<A>, m1: ActionManager<A>, m2: ActionManager<A>)
    requires
        m0.done().len() > 0,
        m1.done() == m0.done().drop_last(),
        m1.undone().len() == m0.undone().len() + 1,
        m1.undone().drop_last() == m0.undone(),
        m2.undone() == m1.undone().drop_last(),
        m2.done().len() == m1.done().len() + 1,
        m2.done().drop_last() == m1.done(),
    ensures
        m2.undone() == m0.undone(),
        m2.done().len() == m0.done().len(),
        m2.done().drop_last() == m0.done().drop_last(),
        m1.undone().last() == m0.done().last() && m2.done().last() == m1.undone().last()
            ==> m2.done() == m0.done(),
{
    if m1.undone().last() == m0.done().last() && m2.done().last() == m1.undone().last() {
        let n = m0.done().len();
        assert forall|i: int| 0 <= i < n implies m2.done()[i] == m0.done()[i] by {
            if i < n - 1 {
                assert(m2.done().drop_last()[i] == m2.done()[i]);
                assert(m0.done().drop_last()[i] == m0.done()[i]);
            }
        }
        assert(m2.done() =~= m0.done());
    }
}

} // verus!
