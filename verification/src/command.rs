//! Undoable editor commands and the history that executes, undoes and redoes
//! them.
//!
//! A move command records, for each pawn it moves, the pawn's identifier, the
//! transform it had before the move and the transform it is moved to.
//! Executing the command puts every recorded pawn that is still in the world
//! at its destination; undoing it puts each back where it was recorded to
//! start. When an identifier is recorded twice, its last record wins.

use vstd::prelude::*;

use crate::world::{keyed_by_uid, Pawn, PawnManager, World};

verus! {

/// The pawns after applying the records of `moves` in order: each record
/// whose pawn is present sets that pawn's transform to the record's
/// destination (`forward`) or to its origin (`!forward`).
pub open spec fn moved_pawns<T, S>(
    pawns: Map<u128, Pawn<T, S>>,
    moves: Seq<(u128, T, T)>,
    forward: bool,
) -> Map<u128, Pawn<T, S>>
    decreases moves.len(),
{
    if moves.len() == 0 {
        pawns
    } else {
        let prev = moved_pawns(pawns, moves.drop_last(), forward);
        let m = moves.last();
        if prev.contains_key(m.0) {
            prev.insert(m.0, prev[m.0].with_transform(if forward { m.2 } else { m.1 }))
        } else {
            prev
        }
    }
}

/// The transform that the last record for `uid` in `moves` assigns, going
/// forward (destination) or backward (origin); `None` when no record names
/// `uid`.
pub open spec fn last_target<T>(moves: Seq<(u128, T, T)>, uid: u128, forward: bool) -> Option<T>
    decreases moves.len(),
{
    if moves.len() == 0 {
        None
    } else if moves.last().0 == uid {
        Some(if forward { moves.last().2 } else { moves.last().1 })
    } else {
        last_target(moves.drop_last(), uid, forward)
    }
}

/// Whether some record names `uid` does not depend on the direction.
proof fn lemma_last_target_presence<T>(moves: Seq<(u128, T, T)>, uid: u128, a: bool, b: bool)
    ensures
        last_target(moves, uid, a) is Some <==> last_target(moves, uid, b) is Some,
    decreases moves.len(),
{
    if moves.len() > 0 {
        lemma_last_target_presence(moves.drop_last(), uid, a, b);
    }
}

/// Applying moves keeps the set of pawns; each pawn ends at the last
/// transform recorded for it, or stays as it was when none is recorded.
pub proof fn lemma_moved_pawns_pointwise<T, S>(
    pawns: Map<u128, Pawn<T, S>>,
    moves: Seq<(u128, T, T)>,
    forward: bool,
)
    ensures
        moved_pawns(pawns, moves, forward).dom() == pawns.dom(),
        forall|k: u128| #[trigger]
            pawns.contains_key(k) ==> moved_pawns(pawns, moves, forward)[k] == match last_target(
                moves,
                k,
                forward,
            ) {
                Some(t) => pawns[k].with_transform(t),
                None => pawns[k],
            },
    decreases moves.len(),
{
    if moves.len() > 0 {
        lemma_moved_pawns_pointwise(pawns, moves.drop_last(), forward);
        assert(moved_pawns(pawns, moves, forward).dom() =~= pawns.dom());
    }
}

/// Applying moves keeps every pawn under its own identifier.
pub proof fn lemma_moved_pawns_keyed<T, S>(
    pawns: Map<u128, Pawn<T, S>>,
    moves: Seq<(u128, T, T)>,
    forward: bool,
)
    requires
        keyed_by_uid(pawns),
    ensures
        keyed_by_uid(moved_pawns(pawns, moves, forward)),
{
    lemma_moved_pawns_pointwise(pawns, moves, forward);
}


/// A pawn that no record names is left as it was.
proof fn lemma_moves_skip_unnamed<T, S>(
    pawns: Map<u128, Pawn<T, S>>,
    moves: Seq<(u128, T, T)>,
    forward: bool,
    k: u128,
)
    requires
        pawns.contains_key(k),
        forall|i: int| 0 <= i < moves.len() ==> moves[i].0 != k,
    ensures
        moved_pawns(pawns, moves, forward).contains_key(k),
        moved_pawns(pawns, moves, forward)[k] == pawns[k],
    decreases moves.len(),
{
    if moves.len() > 0 {
        let rest = moves.drop_last();
        assert forall|i: int| 0 <= i < rest.len() implies rest[i].0 != k by {
            assert(moves[i] == rest[i]);
        }
        lemma_moves_skip_unnamed(pawns, rest, forward, k);
        assert(moves[moves.len() - 1].0 != k);
    }
}

/// A record that no later record for the same pawn overrides decides where
/// that pawn ends.
proof fn lemma_moves_last_record<T, S>(
    pawns: Map<u128, Pawn<T, S>>,
    moves: Seq<(u128, T, T)>,
    forward: bool,
    i: int,
)
    requires
        0 <= i < moves.len(),
        pawns.contains_key(moves[i].0),
        forall|j: int| i < j < moves.len() ==> moves[j].0 != moves[i].0,
    ensures
        moved_pawns(pawns, moves, forward).contains_key(moves[i].0),
        moved_pawns(pawns, moves, forward)[moves[i].0] == pawns[moves[i].0].with_transform(
            if forward { moves[i].2 } else { moves[i].1 },
        ),
    decreases moves.len(),
{
    lemma_moved_pawns_pointwise(pawns, moves, forward);
    if i < moves.len() - 1 {
        let rest = moves.drop_last();
        assert forall|j: int| i < j < rest.len() implies rest[j].0 != rest[i].0 by {
            assert(moves[j] == rest[j]);
        }
        lemma_moves_last_record(pawns, rest, forward, i);
        lemma_moved_pawns_pointwise(pawns, rest, forward);
        assert(moves[moves.len() - 1].0 != moves[i].0);
    }
}

/// Law: applying moves keeps exactly the same pawns; a pawn that no record
/// names is left as it was; a pawn ends at the destination (or, going
/// backward, the origin) of the last record that names it, keeping its
/// sprite and identifier.
pub proof fn lemma_moves_place_each_pawn<T, S>(
    pawns: Map<u128, Pawn<T, S>>,
    moves: Seq<(u128, T, T)>,
    forward: bool,
)
    ensures
        moved_pawns(pawns, moves, forward).dom() == pawns.dom(),
        forall|k: u128|
            pawns.contains_key(k) && (forall|i: int| 0 <= i < moves.len() ==> moves[i].0 != k)
                ==> #[trigger] moved_pawns(pawns, moves, forward)[k] == pawns[k],
        forall|i: int|
            0 <= i < moves.len() && pawns.contains_key(moves[i].0) && (forall|j: int|
                i < j < moves.len() ==> moves[j].0 != moves[i].0) ==> {
                &&& moved_pawns(pawns, moves, forward)[(#[trigger] moves[i]).0].transform == if forward {
                    moves[i].2
                } else {
                    moves[i].1
                }
                &&& moved_pawns(pawns, moves, forward)[moves[i].0].sprite == pawns[moves[i].0].sprite
                &&& moved_pawns(pawns, moves, forward)[moves[i].0].uid == pawns[moves[i].0].uid
            },
{
    lemma_moved_pawns_pointwise(pawns, moves, forward);
    assert forall|k: u128|
        pawns.contains_key(k) && (forall|i: int| 0 <= i < moves.len() ==> moves[i].0 != k)
            implies #[trigger] moved_pawns(pawns, moves, forward)[k] == pawns[k] by {
        lemma_moves_skip_unnamed(pawns, moves, forward, k);
    }
    assert forall|i: int|
        0 <= i < moves.len() && pawns.contains_key(moves[i].0) && (forall|j: int|
            i < j < moves.len() ==> moves[j].0 != moves[i].0) implies {
        &&& moved_pawns(pawns, moves, forward)[(#[trigger] moves[i]).0].transform == if forward {
            moves[i].2
        } else {
            moves[i].1
        }
        &&& moved_pawns(pawns, moves, forward)[moves[i].0].sprite == pawns[moves[i].0].sprite
        &&& moved_pawns(pawns, moves, forward)[moves[i].0].uid == pawns[moves[i].0].uid
    } by {
        lemma_moves_last_record(pawns, moves, forward, i);
    }
}

/// Law: applying the same records twice, the second pass decides. In
/// particular applying a move twice is the same as applying it once, and
/// undoing after executing is the same as undoing alone.
pub proof fn lemma_moves_overwrite<T, S>(
    pawns: Map<u128, Pawn<T, S>>,
    moves: Seq<(u128, T, T)>,
    first: bool,
    second: bool,
)
    ensures
        moved_pawns(moved_pawns(pawns, moves, first), moves, second) == moved_pawns(
            pawns,
            moves,
            second,
        ),
{
    let mid = moved_pawns(pawns, moves, first);
    lemma_moved_pawns_pointwise(pawns, moves, first);
    lemma_moved_pawns_pointwise(mid, moves, second);
    lemma_moved_pawns_pointwise(pawns, moves, second);
    assert forall|k: u128| #[trigger] pawns.contains_key(k) implies moved_pawns(
        mid,
        moves,
        second,
    )[k] == moved_pawns(pawns, moves, second)[k] by {
        lemma_last_target_presence(moves, k, first, second);
    }
    assert(moved_pawns(mid, moves, second) =~= moved_pawns(pawns, moves, second));
}


/// Law: executing moves whose every record sends its pawn to where that pawn
/// already stands changes nothing.
pub proof fn lemma_moves_in_place_change_nothing<T, S>(
    pawns: Map<u128, Pawn<T, S>>,
    moves: Seq<(u128, T, T)>,
)
    requires
        forall|k: int|
            0 <= k < moves.len() && pawns.contains_key(#[trigger] moves[k].0) ==> moves[k].2
                == pawns[moves[k].0].transform,
    ensures
        moved_pawns(pawns, moves, true) == pawns,
    decreases moves.len(),
{
    if moves.len() > 0 {
        let rest = moves.drop_last();
        assert forall|k: int|
            0 <= k < rest.len() && pawns.contains_key(#[trigger] rest[k].0) implies rest[k].2
                == pawns[rest[k].0].transform by {
            assert(rest[k] == moves[k]);
        }
        lemma_moves_in_place_change_nothing(pawns, rest);
        let m = moves[moves.len() - 1];
        if pawns.contains_key(m.0) {
            assert(pawns[m.0].with_transform(m.2) == pawns[m.0]);
            assert(moved_pawns(pawns, moves, true) =~= pawns);
        }
    }
}

/// A batch of pawn moves that can be executed and undone.
pub struct MoveCommand<T> {
    saved_pawns: Vec<(u128, T, T)>,
}

impl<T: Copy> MoveCommand<T> {
    /// The recorded moves: identifier, origin, destination.
    pub closed spec fn moves(&self) -> Seq<(u128, T, T)> {
        self.saved_pawns@
    }

    /// A command that moves one pawn from `from` to `dest`.
    pub fn new(uid: u128, from: T, dest: T) -> (c: Self)
        ensures
            c.moves() == seq![(uid, from, dest)],
    {
        let mut saved_pawns: Vec<(u128, T, T)> = Vec::new();
        saved_pawns.push((uid, from, dest));
        MoveCommand { saved_pawns }
    }

    /// A command made of the given moves, in order.
    pub fn batch(moves: Vec<(u128, T, T)>) -> (c: Self)
        ensures
            c.moves() == moves@,
    {
        MoveCommand { saved_pawns: moves }
    }

    /// The recorded moves.
    pub fn saved_pawns(&self) -> (r: &Vec<(u128, T, T)>)
        ensures
            r@ == self.moves(),
    {
        &self.saved_pawns
    }

    fn apply<S>(&self, pawn_manager: &mut PawnManager<T, S>, forward: bool)
        ensures
            final(pawn_manager)@ == moved_pawns(old(pawn_manager)@, self.moves(), forward),
    {
        let n = self.saved_pawns.len();
        let mut i: usize = 0;
        while i < n
            invariant
                n == self.saved_pawns@.len(),
                i <= n,
                pawn_manager@ == moved_pawns(
                    old(pawn_manager)@,
                    self.moves().take(i as int),
                    forward,
                ),
            decreases n - i,
        {
            let (uid, from, dest) = self.saved_pawns[i];
            proof {
                assert(self.moves().take(i + 1).drop_last() =~= self.moves().take(i as int));
            }
            if forward {
                pawn_manager.set_transform(uid, dest);
            } else {
                pawn_manager.set_transform(uid, from);
            }
            i = i + 1;
        }
        proof {
            assert(self.moves().take(n as int) =~= self.moves());
        }
    }

    /// Puts every recorded pawn that is present at its destination.
    pub fn execute<S>(&self, pawn_manager: &mut PawnManager<T, S>)
        ensures
            final(pawn_manager)@ == moved_pawns(old(pawn_manager)@, self.moves(), true),
    {
        self.apply(pawn_manager, true);
    }

    /// Puts every recorded pawn that is present back at its origin.
    pub fn undo<S>(&self, pawn_manager: &mut PawnManager<T, S>)
        ensures
            final(pawn_manager)@ == moved_pawns(old(pawn_manager)@, self.moves(), false),
    {
        self.apply(pawn_manager, false);
    }
}

/// A command that the history can undo and redo.
pub enum UnReCommand<T> {
    Move(MoveCommand<T>),
}

impl<T: Copy> UnReCommand<T> {
    /// The pawns after executing the command.
    pub open spec fn applied<S>(self, pawns: Map<u128, Pawn<T, S>>) -> Map<u128, Pawn<T, S>> {
        match self {
            UnReCommand::Move(c) => moved_pawns(pawns, c.moves(), true),
        }
    }

    /// The pawns after undoing the command.
    pub open spec fn reverted<S>(self, pawns: Map<u128, Pawn<T, S>>) -> Map<u128, Pawn<T, S>> {
        match self {
            UnReCommand::Move(c) => moved_pawns(pawns, c.moves(), false),
        }
    }

    /// Executes the command on the world's pawns; the camera and the map
    /// stay.
    pub fn execute<S, C>(&self, world: &mut World<T, S, C>)
        ensures
            final(world).pawn_manager@ == self.applied(old(world).pawn_manager@),
            final(world).camera == old(world).camera,
            final(world).map == old(world).map,
    {
        match self {
            UnReCommand::Move(cmd) => cmd.execute(&mut world.pawn_manager),
        }
    }

    /// Undoes the command on the world's pawns; the camera and the map stay.
    pub fn undo<S, C>(&self, world: &mut World<T, S, C>)
        ensures
            final(world).pawn_manager@ == self.reverted(old(world).pawn_manager@),
            final(world).camera == old(world).camera,
            final(world).map == old(world).map,
    {
        match self {
            UnReCommand::Move(cmd) => cmd.undo(&mut world.pawn_manager),
        }
    }

    /// The name of the command's kind.
    pub fn label(&self) -> (r: &'static str)
        ensures
            self is Move ==> r@ == "UnReCommand::Move"@,
    {
        match self {
            UnReCommand::Move(_) => "UnReCommand::Move",
        }
    }
}

/// The state of a history: the commands done, oldest first, and the commands
/// undone, the most recently undone last.
#[verifier::ext_equal]
pub struct HistoryView<T> {
    pub done: Seq<UnReCommand<T>>,
    pub undone: Seq<UnReCommand<T>>,
}

impl<T: Copy> HistoryView<T> {
    /// After executing `cmd`: it is the newest done command and nothing is
    /// left to redo.
    pub open spec fn after_execute(self, cmd: UnReCommand<T>) -> Self {
        HistoryView { done: self.done.push(cmd), undone: Seq::empty() }
    }

    /// After an undo: the newest done command moves to the undone ones; with
    /// nothing done, nothing changes.
    pub open spec fn after_undo(self) -> Self {
        if self.done.len() == 0 {
            self
        } else {
            HistoryView { done: self.done.drop_last(), undone: self.undone.push(self.done.last()) }
        }
    }

    /// After a redo: the most recently undone command is done again; with
    /// nothing undone, nothing changes.
    pub open spec fn after_redo(self) -> Self {
        if self.undone.len() == 0 {
            self
        } else {
            HistoryView { done: self.done.push(self.undone.last()), undone: self.undone.drop_last() }
        }
    }

    /// The pawns after an undo in this state.
    pub open spec fn undo_effect<S>(self, pawns: Map<u128, Pawn<T, S>>) -> Map<u128, Pawn<T, S>> {
        if self.done.len() == 0 {
            pawns
        } else {
            self.done.last().reverted(pawns)
        }
    }

    /// The pawns after a redo in this state.
    pub open spec fn redo_effect<S>(self, pawns: Map<u128, Pawn<T, S>>) -> Map<u128, Pawn<T, S>> {
        if self.undone.len() == 0 {
            pawns
        } else {
            self.undone.last().applied(pawns)
        }
    }
}

/// The undo/redo history of editor commands.
pub struct CommandManager<T> {
    history: Vec<UnReCommand<T>>,
    redo: Vec<UnReCommand<T>>,
}

impl<T> View for CommandManager<T> {
    type V = HistoryView<T>;

    closed spec fn view(&self) -> HistoryView<T> {
        HistoryView { done: self.history@, undone: self.redo@ }
    }
}

impl<T: Copy> CommandManager<T> {
    /// An empty history.
    pub fn new() -> (m: Self)
        ensures
            m@.done == Seq::<UnReCommand<T>>::empty(),
            m@.undone == Seq::<UnReCommand<T>>::empty(),
    {
        CommandManager { history: Vec::new(), redo: Vec::new() }
    }

    /// Executes `cmd` on the world and records it as done; whatever was
    /// undone can no longer be redone.
    pub fn execute<S, C>(&mut self, cmd: UnReCommand<T>, world: &mut World<T, S, C>)
        ensures
            final(self)@ == old(self)@.after_execute(cmd),
            final(self)@.done == old(self)@.done + seq![cmd],
            final(self)@.undone.len() == 0,
            final(world).pawn_manager@ == cmd.applied(old(world).pawn_manager@),
            final(world).camera == old(world).camera,
            final(world).map == old(world).map,
    {
        cmd.execute(world);
        self.history.push(cmd);
        self.redo.clear();
        assert(self@.undone =~= Seq::<UnReCommand<T>>::empty());
        assert(self@.done =~= old(self)@.done + seq![cmd]);
    }

    /// Undoes the newest done command, if any, and keeps it for redo.
    pub fn undo<S, C>(&mut self, world: &mut World<T, S, C>)
        ensures
            final(self)@ == old(self)@.after_undo(),
            final(world).pawn_manager@ == old(self)@.undo_effect(old(world).pawn_manager@),
            old(self)@.done.len() == 0 ==> final(self)@ == old(self)@ && final(world).pawn_manager@
                == old(world).pawn_manager@,
            old(self)@.done.len() > 0 ==> {
                &&& final(self)@.done == old(self)@.done.subrange(0, old(self)@.done.len() - 1)
                &&& final(self)@.undone == old(self)@.undone + seq![old(self)@.done[old(self)@.done.len() - 1]]
            },
            final(world).camera == old(world).camera,
            final(world).map == old(world).map,
    {
        let cmd = self.history.pop();
        if let Some(cmd) = cmd {
            cmd.undo(world);
            self.redo.push(cmd);
        }
        proof {
            lemma_undo_steps_one_command(old(self)@, old(world).pawn_manager@);
        }
    }

    /// Executes again the most recently undone command, if any, and records
    /// it as done.
    pub fn redo<S, C>(&mut self, world: &mut World<T, S, C>)
        ensures
            final(self)@ == old(self)@.after_redo(),
            final(world).pawn_manager@ == old(self)@.redo_effect(old(world).pawn_manager@),
            old(self)@.undone.len() == 0 ==> final(self)@ == old(self)@ && final(world).pawn_manager@
                == old(world).pawn_manager@,
            old(self)@.undone.len() > 0 ==> {
                &&& final(self)@.undone == old(self)@.undone.subrange(0, old(self)@.undone.len() - 1)
                &&& final(self)@.done == old(self)@.done + seq![old(self)@.undone[old(self)@.undone.len() - 1]]
            },
            final(world).camera == old(world).camera,
            final(world).map == old(world).map,
    {
        let cmd = self.redo.pop();
        if let Some(cmd) = cmd {
            cmd.execute(world);
            self.history.push(cmd);
        }
        proof {
            lemma_redo_steps_one_command(old(self)@, old(world).pawn_manager@);
        }
    }

    /// A move command made of the given moves.
    pub fn transform_pawn(moves: Vec<(u128, T, T)>) -> (c: MoveCommand<T>)
        ensures
            c.moves() == moves@,
    {
        MoveCommand::batch(moves)
    }
}

impl<T: Copy> Default for CommandManager<T> {
    fn default() -> (m: Self)
        ensures
            m@.done == Seq::<UnReCommand<T>>::empty(),
            m@.undone == Seq::<UnReCommand<T>>::empty(),
    {
        CommandManager::new()
    }
}


/// Law: executing a move command puts each pawn it names at the destination
/// of the last record for that pawn, undoing it puts the pawn at that
/// record's origin, and pawns it does not name stay as they are.
pub proof fn lemma_command_places_pawns<T: Copy, S>(cmd: UnReCommand<T>, pawns: Map<u128, Pawn<T, S>>)
    ensures
        cmd matches UnReCommand::Move(c) && {
            &&& forall|i: int|
                0 <= i < c.moves().len() && pawns.contains_key(c.moves()[i].0) && (forall|j: int|
                    i < j < c.moves().len() ==> c.moves()[j].0 != c.moves()[i].0) ==> {
                    &&& cmd.applied(pawns)[(#[trigger] c.moves()[i]).0].transform == c.moves()[i].2
                    &&& cmd.reverted(pawns)[c.moves()[i].0].transform == c.moves()[i].1
                }
            &&& forall|k: u128|
                pawns.contains_key(k) && (forall|i: int| 0 <= i < c.moves().len() ==> c.moves()[i].0 != k)
                    ==> #[trigger] cmd.applied(pawns)[k] == pawns[k] && cmd.reverted(pawns)[k] == pawns[k]
        },
{
    match cmd {
        UnReCommand::Move(c) => {
            lemma_moves_place_each_pawn(pawns, c.moves(), true);
            lemma_moves_place_each_pawn(pawns, c.moves(), false);
        },
    }
}

/// Law: executing or undoing a command changes only where pawns stand: the
/// same pawns remain, each with its sprite and its identifier.
pub proof fn lemma_commands_only_move_pawns<T: Copy, S>(
    cmd: UnReCommand<T>,
    pawns: Map<u128, Pawn<T, S>>,
)
    ensures
        cmd.applied(pawns).dom() == pawns.dom(),
        cmd.reverted(pawns).dom() == pawns.dom(),
        forall|k: u128| #[trigger]
            pawns.contains_key(k) ==> {
                &&& cmd.applied(pawns)[k].sprite == pawns[k].sprite
                &&& cmd.applied(pawns)[k].uid == pawns[k].uid
                &&& cmd.reverted(pawns)[k].sprite == pawns[k].sprite
                &&& cmd.reverted(pawns)[k].uid == pawns[k].uid
            },
{
    match cmd {
        UnReCommand::Move(c) => {
            lemma_moved_pawns_pointwise(pawns, c.moves(), true);
            lemma_moved_pawns_pointwise(pawns, c.moves(), false);
        },
    }
}

/// Law: executing a command a second time changes nothing more.
pub proof fn lemma_execute_idempotent<T: Copy, S>(cmd: UnReCommand<T>, pawns: Map<u128, Pawn<T, S>>)
    ensures
        cmd.applied(cmd.applied(pawns)) == cmd.applied(pawns),
{
    match cmd {
        UnReCommand::Move(c) => lemma_moves_overwrite(pawns, c.moves(), true, true),
    }
}

/// Law: undoing a command right after executing it gives the pawns back as
/// they were, when they stood where the command records them to start.
pub proof fn lemma_undo_after_execute<T: Copy, S>(cmd: UnReCommand<T>, pawns: Map<u128, Pawn<T, S>>)
    requires
        cmd.reverted(pawns) == pawns,
    ensures
        cmd.reverted(cmd.applied(pawns)) == pawns,
{
    match cmd {
        UnReCommand::Move(c) => lemma_moves_overwrite(pawns, c.moves(), true, false),
    }
}

/// Law: executing a command right after undoing it gives the pawns back as
/// they were, when they stood where the command moves them.
pub proof fn lemma_execute_after_undo<T: Copy, S>(cmd: UnReCommand<T>, pawns: Map<u128, Pawn<T, S>>)
    requires
        cmd.applied(pawns) == pawns,
    ensures
        cmd.applied(cmd.reverted(pawns)) == pawns,
{
    match cmd {
        UnReCommand::Move(c) => lemma_moves_overwrite(pawns, c.moves(), false, true),
    }
}

/// Law: an undo right after executing a command undoes exactly that command:
/// the done commands are those from before, the command is the only one left
/// to redo, and the pawns are back where they stood, when they stood where
/// the command records them to start.
pub proof fn lemma_history_execute_then_undo<T: Copy, S>(
    h: HistoryView<T>,
    cmd: UnReCommand<T>,
    pawns: Map<u128, Pawn<T, S>>,
)
    requires
        cmd.reverted(pawns) == pawns,
    ensures
        h.after_execute(cmd).after_undo() == (HistoryView { done: h.done, undone: seq![cmd] }),
        h.after_execute(cmd).undo_effect(cmd.applied(pawns)) == pawns,
{
    lemma_undo_after_execute(cmd, pawns);
    assert(h.after_execute(cmd).after_undo() =~= (HistoryView { done: h.done, undone: seq![cmd] }));
}

/// Law: a redo right after an undo restores the history, and restores the
/// pawns when they stood where the newest done command left them.
pub proof fn lemma_history_undo_then_redo<T: Copy, S>(h: HistoryView<T>, pawns: Map<u128, Pawn<T, S>>)
    requires
        h.done.len() > 0,
        h.done.last().applied(pawns) == pawns,
    ensures
        h.after_undo().after_redo() == h,
        h.after_undo().redo_effect(h.undo_effect(pawns)) == pawns,
{
    lemma_execute_after_undo(h.done.last(), pawns);
    assert(h.after_undo().after_redo() =~= h);
}

/// Law: an undo right after a redo restores the history, and restores the
/// pawns when they stood where the command to redo records them to start.
pub proof fn lemma_history_redo_then_undo<T: Copy, S>(h: HistoryView<T>, pawns: Map<u128, Pawn<T, S>>)
    requires
        h.undone.len() > 0,
        h.undone.last().reverted(pawns) == pawns,
    ensures
        h.after_redo().after_undo() == h,
        h.after_redo().undo_effect(h.redo_effect(pawns)) == pawns,
{
    lemma_undo_after_execute(h.undone.last(), pawns);
    assert(h.after_redo().after_undo() =~= h);
}

/// Law: executing a command, undoing it and redoing it leaves the history
/// and the pawns exactly as executing it alone does.
pub proof fn lemma_history_execute_undo_redo<T: Copy, S>(
    h: HistoryView<T>,
    cmd: UnReCommand<T>,
    pawns: Map<u128, Pawn<T, S>>,
)
    ensures
        h.after_execute(cmd).after_undo().after_redo() == h.after_execute(cmd),
        h.after_execute(cmd).after_undo().redo_effect(
            h.after_execute(cmd).undo_effect(cmd.applied(pawns)),
        ) == cmd.applied(pawns),
{
    lemma_execute_idempotent(cmd, pawns);
    lemma_history_undo_then_redo(h.after_execute(cmd), cmd.applied(pawns));
}

/// Law: an undo moves exactly one command, the newest done one, to the end of
/// the commands to redo, and reverts it on the pawns; with nothing done it
/// changes neither the history nor the pawns.
pub proof fn lemma_undo_steps_one_command<T: Copy, S>(h: HistoryView<T>, pawns: Map<u128, Pawn<T, S>>)
    ensures
        h.done.len() == 0 ==> h.after_undo() == h && h.undo_effect(pawns) == pawns,
        h.done.len() > 0 ==> {
            &&& h.after_undo().done == h.done.subrange(0, h.done.len() - 1)
            &&& h.after_undo().undone == h.undone + seq![h.done[h.done.len() - 1]]
            &&& h.undo_effect(pawns) == h.done[h.done.len() - 1].reverted(pawns)
        },
{
    if h.done.len() > 0 {
        assert(h.after_undo().undone =~= h.undone + seq![h.done[h.done.len() - 1]]);
        assert(h.after_undo().done =~= h.done.subrange(0, h.done.len() - 1));
    }
}

/// Law: a redo moves exactly one command, the most recently undone one, to
/// the end of the done commands, and executes it on the pawns; with nothing
/// undone it changes neither the history nor the pawns.
pub proof fn lemma_redo_steps_one_command<T: Copy, S>(h: HistoryView<T>, pawns: Map<u128, Pawn<T, S>>)
    ensures
        h.undone.len() == 0 ==> h.after_redo() == h && h.redo_effect(pawns) == pawns,
        h.undone.len() > 0 ==> {
            &&& h.after_redo().undone == h.undone.subrange(0, h.undone.len() - 1)
            &&& h.after_redo().done == h.done + seq![h.undone[h.undone.len() - 1]]
            &&& h.redo_effect(pawns) == h.undone[h.undone.len() - 1].applied(pawns)
        },
{
    if h.undone.len() > 0 {
        assert(h.after_redo().done =~= h.done + seq![h.undone[h.undone.len() - 1]]);
        assert(h.after_redo().undone =~= h.undone.subrange(0, h.undone.len() - 1));
    }
}

/// Law: executing a command appends exactly it to the done commands and
/// leaves nothing to redo.
pub proof fn lemma_execute_records_command<T: Copy>(h: HistoryView<T>, cmd: UnReCommand<T>)
    ensures
        h.after_execute(cmd).done == h.done + seq![cmd],
        h.after_execute(cmd).undone.len() == 0,
{
    assert(h.after_execute(cmd).done =~= h.done + seq![cmd]);
}

} // verus!
