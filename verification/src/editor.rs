//! The editor's tools: the tool mode, the selection of pawns, the
//! press/drag/release cycle that turns a drag into a move command, and the
//! keyboard shortcuts for undo and redo.
//!
//! Finding which pawns lie under the mouse and moving them while the button
//! is held are geometry on floating-point positions and stay with the caller;
//! this module decides what is selected, what is remembered at the press and
//! what command the release produces.

use vstd::prelude::*;

use crate::command::{
    lemma_execute_records_command, lemma_moves_in_place_change_nothing, lemma_redo_steps_one_command,
    lemma_undo_steps_one_command, moved_pawns, CommandManager, HistoryView, MoveCommand, UnReCommand,
};
use crate::world::{found_pawns, holds_uid, keyed_by_uid, Pawn, World};

verus! {

/// What a click in the editor does.
#[derive(Debug, Clone, Copy, PartialEq, Eq, Structural)]
pub enum ToolMode {
    Spawn,
    Move,
}

impl Default for ToolMode {
    fn default() -> (m: Self)
        ensures
            m == ToolMode::Spawn,
    {
        ToolMode::Spawn
    }
}

impl ToolMode {
    /// The name shown for the mode.
    pub fn label(&self) -> (r: &str)
        ensures
            *self == ToolMode::Spawn ==> r@ == "Select"@,
            *self == ToolMode::Move ==> r@ == "Move"@,
    {
        match self {
            ToolMode::Spawn => "Select",
            ToolMode::Move => "Move",
        }
    }
}

/// `sel` with each uid of `picked` that it lacks appended, in the order of
/// `picked`.
pub open spec fn with_missing(sel: Seq<u128>, picked: Seq<u128>) -> Seq<u128>
    decreases picked.len(),
{
    if picked.len() == 0 {
        sel
    } else {
        let s = with_missing(sel, picked.drop_last());
        if s.contains(picked.last()) {
            s
        } else {
            s.push(picked.last())
        }
    }
}

/// The selection after a click that hit the pawns `picked` (in the world's
/// order): a click on nothing clears the selection; an additive click adds
/// what it hit; a plain click keeps the selection when it hit a selected
/// pawn, and otherwise selects exactly what it hit.
pub open spec fn picked_selection(sel: Seq<u128>, picked: Seq<u128>, additive: bool) -> Seq<u128> {
    if picked.len() == 0 {
        Seq::empty()
    } else if additive {
        with_missing(sel, picked)
    } else if exists|i: int| 0 <= i < picked.len() && sel.contains(picked[i]) {
        sel
    } else {
        picked
    }
}

/// The transforms of the pawns that `uids` names, in the order of `uids`.
pub open spec fn found_transforms<T, S>(pawns: Map<u128, Pawn<T, S>>, uids: Seq<u128>) -> Seq<T> {
    found_pawns(pawns, uids).map_values(|p: Pawn<T, S>| p.transform)
}

/// Whether `order` lists each selected pawn of the world once, in some
/// order.
pub open spec fn is_pick_order<T, S>(
    pawns: Map<u128, Pawn<T, S>>,
    sel: Seq<u128>,
    order: Seq<u128>,
) -> bool {
    &&& order.no_duplicates()
    &&& forall|u: u128| #[trigger] order.contains(u) <==> (pawns.contains_key(u) && sel.contains(u))
}

/// The number of pawns of the world that are selected.
pub open spec fn selected_count<T, S>(pawns: Map<u128, Pawn<T, S>>, sel: Seq<u128>) -> nat {
    pawns.dom().filter(|u: u128| sel.contains(u)).len()
}

/// The moves of a drag: the i-th pawn of `order` goes from the i-th saved
/// transform to where it stands now.
pub open spec fn drag_moves<T, S>(
    pawns: Map<u128, Pawn<T, S>>,
    order: Seq<u128>,
    saved: Seq<T>,
) -> Seq<(u128, T, T)> {
    Seq::new(order.len(), |i: int| (pawns[order[i]].uid, saved[i], pawns[order[i]].transform))
}

/// Appending the missing uids gives exactly the uids of both, keeps `sel`
/// in front, and holds no uid twice when `sel` holds none twice.
proof fn lemma_with_missing_props(sel: Seq<u128>, picked: Seq<u128>)
    ensures
        forall|u: u128| #[trigger]
            with_missing(sel, picked).contains(u) <==> sel.contains(u) || picked.contains(u),
        sel.no_duplicates() ==> with_missing(sel, picked).no_duplicates(),
        with_missing(sel, picked).take(sel.len() as int) == sel,
        with_missing(sel, picked).len() >= sel.len(),
    decreases picked.len(),
{
    if picked.len() > 0 {
        lemma_with_missing_props(sel, picked.drop_last());
        let s = with_missing(sel, picked.drop_last());
        assert forall|u: u128| #[trigger]
            with_missing(sel, picked).contains(u) <==> sel.contains(u) || picked.contains(u) by {
            if picked.drop_last().contains(u) {
                let j = choose|j: int| 0 <= j < picked.drop_last().len() && picked.drop_last()[j] == u;
                assert(picked[j] == u);
            }
            if picked.contains(u) && u != picked.last() {
                let j = choose|j: int| 0 <= j < picked.len() && picked[j] == u;
                assert(picked.drop_last()[j] == u);
            }
            if !s.contains(picked.last()) && u == picked.last() {
                assert(s.push(picked.last())[s.len() as int] == u);
            }
            if !s.contains(picked.last()) && s.push(picked.last()).contains(u) && u != picked.last() {
                let j = choose|j: int| 0 <= j < s.push(picked.last()).len() && s.push(picked.last())[j] == u;
                assert(s[j] == u);
            }
            if !s.contains(picked.last()) && s.contains(u) {
                let j = choose|j: int| 0 <= j < s.len() && s[j] == u;
                assert(s.push(picked.last())[j] == u);
            }
        }
        assert(with_missing(sel, picked).take(sel.len() as int) =~= sel);
    }
}

/// Law: an additive click selects exactly what was selected and what it hit,
/// and keeps what was selected in front, in its order.
pub proof fn lemma_additive_pick_is_union(sel: Seq<u128>, picked: Seq<u128>)
    requires
        picked.len() > 0,
    ensures
        forall|u: u128| #[trigger]
            picked_selection(sel, picked, true).contains(u) <==> sel.contains(u) || picked.contains(u),
        picked_selection(sel, picked, true).take(sel.len() as int) == sel,
{
    lemma_with_missing_props(sel, picked);
}

/// Law: clicks never select a pawn twice, as long as the selection held no
/// pawn twice; a plain click that selects what it hit needs the hit list to
/// hold no pawn twice as well (an additive click does not).
pub proof fn lemma_pick_keeps_selection_distinct(sel: Seq<u128>, picked: Seq<u128>, additive: bool)
    requires
        sel.no_duplicates(),
        additive || picked.no_duplicates(),
    ensures
        picked_selection(sel, picked, additive).no_duplicates(),
{
    lemma_with_missing_props(sel, picked);
}

/// Law: a click selects nothing new but what it hit: every pawn selected
/// afterwards was selected before or was hit.
pub proof fn lemma_pick_adds_only_picked(sel: Seq<u128>, picked: Seq<u128>, additive: bool)
    ensures
        forall|u: u128| #[trigger]
            picked_selection(sel, picked, additive).contains(u) ==> sel.contains(u) || picked.contains(
                u,
            ),
{
    lemma_with_missing_props(sel, picked);
}

/// Law: repeating an additive click changes nothing more.
pub proof fn lemma_additive_pick_idempotent(sel: Seq<u128>, picked: Seq<u128>)
    requires
        picked.len() > 0,
    ensures
        picked_selection(picked_selection(sel, picked, true), picked, true) == picked_selection(
            sel,
            picked,
            true,
        ),
{
    lemma_with_missing_props(sel, picked);
    lemma_with_missing_stable(picked_selection(sel, picked, true), picked);
}

/// Adding uids that are all present already changes nothing.
proof fn lemma_with_missing_stable(sel: Seq<u128>, picked: Seq<u128>)
    requires
        forall|i: int| 0 <= i < picked.len() ==> sel.contains(picked[i]),
    ensures
        with_missing(sel, picked) == sel,
    decreases picked.len(),
{
    if picked.len() > 0 {
        lemma_with_missing_stable(sel, picked.drop_last());
        assert(sel.contains(picked[picked.len() - 1]));
    }
}

/// The selection tool: the selected pawns, the point where the current drag
/// started and the transforms the selected pawns had when it started.
pub struct SelectionTool<T, P> {
    selections: Vec<u128>,
    pre_picked_center: P,
    pre_transforms: Vec<T>,
}

impl<T: Copy, P> SelectionTool<T, P> {
    /// The selected pawns' identifiers.
    pub closed spec fn selected(&self) -> Seq<u128> {
        self.selections@
    }

    /// Where the current drag started.
    pub closed spec fn anchor(&self) -> P {
        self.pre_picked_center
    }

    /// The transforms remembered at the start of the current drag.
    pub closed spec fn saved_transforms(&self) -> Seq<T> {
        self.pre_transforms@
    }

    /// A tool with nothing selected and nothing remembered.
    pub fn new(center: P) -> (t: Self)
        ensures
            t.selected() == Seq::<u128>::empty(),
            t.saved_transforms() == Seq::<T>::empty(),
            t.anchor() == center,
    {
        SelectionTool { selections: Vec::new(), pre_picked_center: center, pre_transforms: Vec::new() }
    }

    /// The selected pawns' identifiers.
    pub fn selections(&self) -> (r: &Vec<u128>)
        ensures
            r@ == self.selected(),
    {
        &self.selections
    }

    /// Where the current drag started.
    pub fn pre_picked_center(&self) -> (r: &P)
        ensures
            *r == self.anchor(),
    {
        &self.pre_picked_center
    }

    /// The transforms remembered at the start of the current drag.
    pub fn pre_transforms(&self) -> (r: &Vec<T>)
        ensures
            r@ == self.saved_transforms(),
    {
        &self.pre_transforms
    }

    /// Updates the selection after a click that hit the pawns `cur_picked`;
    /// `additive` is whether the click adds to the selection.
    pub fn update_selected_pawns(&mut self, cur_picked: Vec<u128>, additive: bool)
        ensures
            final(self).selected() == picked_selection(old(self).selected(), cur_picked@, additive),
            forall|u: u128| #[trigger]
                final(self).selected().contains(u) ==> old(self).selected().contains(u)
                    || cur_picked@.contains(u),
            old(self).selected().no_duplicates() && (additive || cur_picked@.no_duplicates())
                ==> final(self).selected().no_duplicates(),
            final(self).saved_transforms() == old(self).saved_transforms(),
            final(self).anchor() == old(self).anchor(),
    {
        proof {
            lemma_pick_adds_only_picked(old(self).selections@, cur_picked@, additive);
            if old(self).selections@.no_duplicates() && (additive || cur_picked@.no_duplicates()) {
                lemma_pick_keeps_selection_distinct(old(self).selections@, cur_picked@, additive);
            }
        }
        let mut cur_picked = cur_picked;
        if cur_picked.len() == 0 {
            self.selections.clear();
            return;
        }
        if additive {
            let mut i: usize = 0;
            while i < cur_picked.len()
                invariant
                    i <= cur_picked@.len(),
                    cur_picked@.len() > 0,
                    self.selections@ == with_missing(old(self).selections@, cur_picked@.take(i as int)),
                    self.pre_transforms == old(self).pre_transforms,
                    self.pre_picked_center == old(self).pre_picked_center,
                decreases cur_picked@.len() - i,
            {
                let uid = cur_picked[i];
                proof {
                    assert(cur_picked@.take(i + 1).drop_last() =~= cur_picked@.take(i as int));
                }
                if !holds_uid(self.selections.as_slice(), uid) {
                    self.selections.push(uid);
                }
                i = i + 1;
            }
            assert(cur_picked@.take(cur_picked@.len() as int) =~= cur_picked@);
            return;
        }
        let mut already_selected = false;
        let mut i: usize = 0;
        while i < cur_picked.len()
            invariant
                i <= cur_picked@.len(),
                already_selected == exists|j: int|
                    0 <= j < i && old(self).selections@.contains(cur_picked@[j]),
                self == old(self),
            decreases cur_picked@.len() - i,
        {
            if holds_uid(self.selections.as_slice(), cur_picked[i]) {
                already_selected = true;
            }
            i = i + 1;
        }
        if !already_selected {
            self.selections.clear();
            self.selections.append(&mut cur_picked);
        }
    }

    /// Remembers, after the ones already remembered, the transforms of the
    /// selected pawns present in the world, in selection order.
    pub fn save_pre_transform<S, C>(&mut self, world: &World<T, S, C>)
        ensures
            final(self).saved_transforms() == old(self).saved_transforms() + found_transforms(
                world.pawn_manager@,
                old(self).selected(),
            ),
            final(self).selected() == old(self).selected(),
            final(self).anchor() == old(self).anchor(),
    {
        let mut i: usize = 0;
        while i < self.selections.len()
            invariant
                i <= self.selections@.len(),
                self.selections == old(self).selections,
                self.pre_picked_center == old(self).pre_picked_center,
                self.pre_transforms@ == old(self).pre_transforms@ + found_transforms(
                    world.pawn_manager@,
                    self.selections@.take(i as int),
                ),
            decreases self.selections@.len() - i,
        {
            let uid = self.selections[i];
            proof {
                assert(self.selections@.take(i + 1).drop_last() =~= self.selections@.take(i as int));
            }
            if let Some(pawn) = world.pawn_manager.get(uid) {
                self.pre_transforms.push(pawn.transform);
            }
            assert(self.pre_transforms@ =~= old(self).pre_transforms@ + found_transforms(
                world.pawn_manager@,
                self.selections@.take(i + 1),
            ));
            i = i + 1;
        }
        assert(self.selections@.take(self.selections@.len() as int) =~= self.selections@);
    }

    /// The press that starts a drag: updates the selection with the pawns the
    /// click hit; with nothing selected afterwards, forgets the remembered
    /// transforms, and otherwise remembers where the drag starts and the
    /// selected pawns' transforms.
    pub fn press_pick<S, C>(
        &mut self,
        world: &World<T, S, C>,
        cur_picked: Vec<u128>,
        additive: bool,
        center: P,
    )
        ensures
            final(self).selected() == picked_selection(old(self).selected(), cur_picked@, additive),
            final(self).selected().len() == 0 ==> {
                &&& final(self).saved_transforms() == Seq::<T>::empty()
                &&& final(self).anchor() == old(self).anchor()
            },
            final(self).selected().len() > 0 ==> {
                &&& final(self).saved_transforms() == old(self).saved_transforms() + found_transforms(
                    world.pawn_manager@,
                    final(self).selected(),
                )
                &&& final(self).anchor() == center
            },
    {
        self.update_selected_pawns(cur_picked, additive);
        if self.selections.len() == 0 {
            self.pre_transforms.clear();
        } else {
            self.pre_picked_center = center;
            self.save_pre_transform(world);
        }
    }

    /// The release that ends a drag: a move command taking each selected pawn
    /// of the world from its remembered transform to where it stands now,
    /// the i-th pawn of the world's order matched with the i-th remembered
    /// transform; the remembered transforms are forgotten.
    pub fn release_pick<S, C>(&mut self, world: &World<T, S, C>) -> (cmd: UnReCommand<T>)
        requires
            selected_count(world.pawn_manager@, old(self).selected()) <= old(
                self,
            ).saved_transforms().len(),
        ensures
            exists|order: Seq<u128>|
                {
                    &&& is_pick_order(world.pawn_manager@, old(self).selected(), order)
                    &&& cmd matches UnReCommand::Move(c) && c.moves() == drag_moves(
                        world.pawn_manager@,
                        order,
                        old(self).saved_transforms(),
                    )
                },
            cmd matches UnReCommand::Move(c) && {
                &&& forall|k: int|
                    0 <= k < c.moves().len() ==> {
                        &&& world.pawn_manager@.contains_key(#[trigger] c.moves()[k].0)
                        &&& old(self).selected().contains(c.moves()[k].0)
                        &&& c.moves()[k].1 == old(self).saved_transforms()[k]
                        &&& c.moves()[k].2 == world.pawn_manager@[c.moves()[k].0].transform
                    }
                &&& forall|a: int, b: int|
                    0 <= a < b < c.moves().len() ==> c.moves()[a].0 != c.moves()[b].0
                &&& forall|u: u128|
                    world.pawn_manager@.contains_key(u) && old(self).selected().contains(u) ==> exists|
                        k: int,
                    |
                        0 <= k < c.moves().len() && #[trigger] c.moves()[k].0 == u
                &&& moved_pawns(world.pawn_manager@, c.moves(), true) == world.pawn_manager@
            },
            final(self).saved_transforms() == Seq::<T>::empty(),
            final(self).selected() == old(self).selected(),
            final(self).anchor() == old(self).anchor(),
    {
        let order = world.pawn_manager.matching_uids(self.selections.as_slice());
        proof {
            order@.unique_seq_to_set();
            assert(order@.to_set() =~= world.pawn_manager@.dom().filter(
                |u: u128| self.selections@.contains(u),
            ));
        }
        let mut moves: Vec<(u128, T, T)> = Vec::new();
        let mut i: usize = 0;
        while i < order.len()
            invariant
                i <= order@.len(),
                order@.len() <= self.pre_transforms@.len(),
                forall|u: u128| #[trigger]
                    order@.contains(u) ==> world.pawn_manager@.contains_key(u),
                moves@ == drag_moves(world.pawn_manager@, order@, self.pre_transforms@).take(
                    i as int,
                ),
                forall|j: int|
                    0 <= j < i ==> #[trigger] world.pawn_manager@[order@[j]].uid == order@[j],
            decreases order@.len() - i,
        {
            let uid = order[i];
            assert(order@.contains(uid));
            match world.pawn_manager.get(uid) {
                Some(pawn) => {
                    moves.push((pawn.get_uid(), self.pre_transforms[i], pawn.transform));
                },
                None => {
                    proof {
                        assert(false);
                    }
                },
            }
            assert(moves@ =~= drag_moves(world.pawn_manager@, order@, self.pre_transforms@).take(
                i + 1,
            ));
            i = i + 1;
        }
        let ghost saved = self.pre_transforms@;
        assert(moves@ =~= drag_moves(world.pawn_manager@, order@, saved));
        let move_cmd: MoveCommand<T> = CommandManager::transform_pawn(moves);
        self.pre_transforms.clear();
        let cmd = UnReCommand::Move(move_cmd);
        proof {
            let mv = drag_moves(world.pawn_manager@, order@, saved);
            assert forall|k: int| 0 <= k < mv.len() implies mv[k].0 == order@[k] by {
                assert(world.pawn_manager@[order@[k]].uid == order@[k]);
            }
            assert forall|k: int| 0 <= k < mv.len() implies {
                &&& world.pawn_manager@.contains_key(#[trigger] mv[k].0)
                &&& old(self).selected().contains(mv[k].0)
                &&& mv[k].1 == saved[k]
                &&& mv[k].2 == world.pawn_manager@[mv[k].0].transform
            } by {
                assert(mv[k].0 == order@[k]);
                assert(order@.contains(order@[k]));
            }
            assert forall|a: int, b: int| 0 <= a < b < mv.len() implies mv[a].0 != mv[b].0 by {
                assert(mv[a].0 == order@[a]);
                assert(mv[b].0 == order@[b]);
            }
            assert forall|u: u128|
                world.pawn_manager@.contains_key(u) && old(self).selected().contains(u) implies exists|
                    k: int,
                |
                    0 <= k < mv.len() && #[trigger] mv[k].0 == u by {
                assert(order@.contains(u));
                let k = choose|k: int| 0 <= k < order@.len() && order@[k] == u;
                assert(mv[k].0 == u);
            }
            lemma_moves_in_place_change_nothing(world.pawn_manager@, mv);
            assert(is_pick_order(world.pawn_manager@, old(self).selected(), order@));
            assert(cmd matches UnReCommand::Move(c) && c.moves() == drag_moves(
                world.pawn_manager@,
                order@,
                old(self).saved_transforms(),
            ));
        }
        cmd
    }

    /// The selected pawns present in the world, in selection order.
    pub fn get_selected_pawns<'a, S, C>(&self, world: &'a World<T, S, C>) -> (r: Vec<
        &'a Pawn<T, S>,
    >)
        ensures
            r@.map_values(|p: &Pawn<T, S>| *p) == found_pawns(world.pawn_manager@, self.selected()),
    {
        world.pawn_manager.get_pawns_from_uid(self.selections.clone())
    }
}

/// A step through the history asked for from the keyboard.
#[derive(Debug, Clone, Copy, PartialEq, Eq, Structural)]
pub enum HistoryStep {
    Undo,
    Redo,
}

/// The history step that the keys ask for: Ctrl+Z undoes, Ctrl+Shift+Z
/// redoes, anything else asks for nothing.
pub fn history_shortcut(ctrl_down: bool, shift_down: bool, z_pressed: bool) -> (r: Option<
    HistoryStep,
>)
    ensures
        r == history_shortcut_spec(ctrl_down, shift_down, z_pressed),
{
    if ctrl_down {
        if !shift_down && z_pressed {
            return Some(HistoryStep::Undo);
        }
        if shift_down && z_pressed {
            return Some(HistoryStep::Redo);
        }
    }
    None
}

/// The history after a frame in which the tool in `mode` produced `picked`
/// and the keys asked for `step`.
pub open spec fn history_after_frame<T: Copy>(
    h: HistoryView<T>,
    mode: ToolMode,
    picked: Option<UnReCommand<T>>,
    step: Option<HistoryStep>,
) -> HistoryView<T> {
    let h1 = match picked {
        Some(c) if mode == ToolMode::Move => h.after_execute(c),
        _ => h,
    };
    match step {
        Some(HistoryStep::Undo) => h1.after_undo(),
        Some(HistoryStep::Redo) => h1.after_redo(),
        None => h1,
    }
}

/// The pawns after such a frame.
pub open spec fn pawns_after_frame<T: Copy, S>(
    h: HistoryView<T>,
    pawns: Map<u128, Pawn<T, S>>,
    mode: ToolMode,
    picked: Option<UnReCommand<T>>,
    step: Option<HistoryStep>,
) -> Map<u128, Pawn<T, S>> {
    let (h1, p1) = match picked {
        Some(c) if mode == ToolMode::Move => (h.after_execute(c), c.applied(pawns)),
        _ => (h, pawns),
    };
    match step {
        Some(HistoryStep::Undo) => h1.undo_effect(p1),
        Some(HistoryStep::Redo) => h1.redo_effect(p1),
        None => p1,
    }
}


/// Law: a drag's moves name the listed pawns in order, start each at the
/// transform saved for it, and end each where that pawn stands now; so
/// executing them right away changes nothing.
pub proof fn lemma_drag_moves_land_where_dropped<T, S>(
    pawns: Map<u128, Pawn<T, S>>,
    order: Seq<u128>,
    saved: Seq<T>,
)
    requires
        keyed_by_uid(pawns),
        forall|k: int| 0 <= k < order.len() ==> pawns.contains_key(#[trigger] order[k]),
    ensures
        drag_moves(pawns, order, saved).len() == order.len(),
        forall|k: int|
            0 <= k < order.len() ==> {
                &&& (#[trigger] drag_moves(pawns, order, saved)[k]).0 == order[k]
                &&& drag_moves(pawns, order, saved)[k].1 == saved[k]
                &&& drag_moves(pawns, order, saved)[k].2 == pawns[order[k]].transform
            },
        moved_pawns(pawns, drag_moves(pawns, order, saved), true) == pawns,
{
    let mv = drag_moves(pawns, order, saved);
    assert forall|k: int| 0 <= k < order.len() implies (#[trigger] mv[k]).0 == order[k] by {
        assert(pawns.contains_key(order[k]));
    }
    assert forall|k: int|
        0 <= k < mv.len() && pawns.contains_key(#[trigger] mv[k].0) implies mv[k].2
            == pawns[mv[k].0].transform by {
        assert(pawns.contains_key(order[k]));
    }
    lemma_moves_in_place_change_nothing(pawns, mv);
}

/// Law: a click on nothing clears the selection; a plain click that hit any
/// selected pawn keeps the selection as it is; a plain click that hit only
/// unselected pawns selects exactly the hit pawns, in order.
pub proof fn lemma_plain_click(sel: Seq<u128>, picked: Seq<u128>, additive: bool)
    ensures
        picked.len() == 0 ==> picked_selection(sel, picked, additive).len() == 0,
        !additive && (exists|i: int| 0 <= i < picked.len() && sel.contains(#[trigger] picked[i]))
            ==> picked_selection(sel, picked, additive) == sel,
        !additive && picked.len() > 0 && (forall|i: int|
            0 <= i < picked.len() ==> !sel.contains(#[trigger] picked[i]))
            ==> picked_selection(sel, picked, additive) == picked,
{
}

/// Law: in a frame without a command to run (spawn mode, or no drag
/// released), Ctrl+Z moves exactly the newest done command to the end of
/// the undone ones, Ctrl+Shift+Z moves exactly the most recently undone
/// command back to the end of the done ones, each at most once, and no key
/// leaves the history as it is.
pub proof fn lemma_frame_without_command<T: Copy, S>(
    h: HistoryView<T>,
    pawns: Map<u128, Pawn<T, S>>,
    mode: ToolMode,
    picked: Option<UnReCommand<T>>,
    step: Option<HistoryStep>,
)
    requires
        mode == ToolMode::Spawn || picked is None,
    ensures
        step is None ==> history_after_frame(h, mode, picked, step) == h && pawns_after_frame(
            h,
            pawns,
            mode,
            picked,
            step,
        ) == pawns,
        step == Some(HistoryStep::Undo) ==> pawns_after_frame(h, pawns, mode, picked, step) == if h.done.len()
            == 0 {
            pawns
        } else {
            h.done[h.done.len() - 1].reverted(pawns)
        },
        step == Some(HistoryStep::Redo) ==> pawns_after_frame(h, pawns, mode, picked, step) == if h.undone.len()
            == 0 {
            pawns
        } else {
            h.undone[h.undone.len() - 1].applied(pawns)
        },
        step == Some(HistoryStep::Undo) && h.done.len() == 0 ==> history_after_frame(
            h,
            mode,
            picked,
            step,
        ) == h,
        step == Some(HistoryStep::Undo) && h.done.len() > 0 ==> {
            &&& history_after_frame(h, mode, picked, step).done == h.done.subrange(
                0,
                h.done.len() - 1,
            )
            &&& history_after_frame(h, mode, picked, step).undone == h.undone + seq![
                h.done[h.done.len() - 1],
            ]
        },
        step == Some(HistoryStep::Redo) && h.undone.len() == 0 ==> history_after_frame(
            h,
            mode,
            picked,
            step,
        ) == h,
        step == Some(HistoryStep::Redo) && h.undone.len() > 0 ==> {
            &&& history_after_frame(h, mode, picked, step).undone == h.undone.subrange(
                0,
                h.undone.len() - 1,
            )
            &&& history_after_frame(h, mode, picked, step).done == h.done + seq![
                h.undone[h.undone.len() - 1],
            ]
        },
{
    lemma_undo_steps_one_command(h, pawns);
    lemma_redo_steps_one_command(h, pawns);
}

/// Law: in move mode a released drag's command is recorded as done and
/// nothing is left to redo; Ctrl+Z in the same frame undoes exactly that
/// command, and Ctrl+Shift+Z then finds nothing to redo.
pub proof fn lemma_frame_with_command<T: Copy, S>(
    h: HistoryView<T>,
    pawns: Map<u128, Pawn<T, S>>,
    cmd: UnReCommand<T>,
    step: Option<HistoryStep>,
)
    ensures
        step != Some(HistoryStep::Undo) ==> pawns_after_frame(h, pawns, ToolMode::Move, Some(cmd), step)
            == cmd.applied(pawns),
        step == Some(HistoryStep::Undo) ==> pawns_after_frame(h, pawns, ToolMode::Move, Some(cmd), step)
            == cmd.reverted(cmd.applied(pawns)),
        step != Some(HistoryStep::Undo) ==> {
            &&& history_after_frame(h, ToolMode::Move, Some(cmd), step).done == h.done + seq![cmd]
            &&& history_after_frame(h, ToolMode::Move, Some(cmd), step).undone.len() == 0
        },
        step == Some(HistoryStep::Undo) ==> {
            &&& history_after_frame(h, ToolMode::Move, Some(cmd), step).done == h.done
            &&& history_after_frame(h, ToolMode::Move, Some(cmd), step).undone == seq![cmd]
        },
{
    lemma_execute_records_command(h, cmd);
    let h1 = h.after_execute(cmd);
    assert(h1.done.drop_last() =~= h.done);
    assert(h1.undone.push(cmd) =~= seq![cmd]);
    lemma_undo_steps_one_command(h1, cmd.applied(pawns));
    lemma_redo_steps_one_command(h1, cmd.applied(pawns));
}

/// The editor's state: the tool mode and the selection tool.
pub struct EditorState<T, P> {
    pub tool_mode: ToolMode,
    pub selection: SelectionTool<T, P>,
}

impl<T: Copy, P> EditorState<T, P> {
    /// An editor in spawn mode with nothing selected.
    pub fn new(center: P) -> (e: Self)
        ensures
            e.tool_mode == ToolMode::Spawn,
            e.selection.selected() == Seq::<u128>::empty(),
            e.selection.saved_transforms() == Seq::<T>::empty(),
    {
        EditorState { tool_mode: ToolMode::Spawn, selection: SelectionTool::new(center) }
    }

    /// One frame of the editor: in move mode, executes the command that the
    /// selection tool produced, if any; then undoes on Ctrl+Z and redoes on
    /// Ctrl+Shift+Z.
    pub fn update<S, C>(
        &self,
        world: &mut World<T, S, C>,
        command_manager: &mut CommandManager<T>,
        picked: Option<UnReCommand<T>>,
        ctrl_down: bool,
        shift_down: bool,
        z_pressed: bool,
    )
        ensures
            final(command_manager)@ == history_after_frame(
                old(command_manager)@,
                self.tool_mode,
                picked,
                history_shortcut_spec(ctrl_down, shift_down, z_pressed),
            ),
            final(world).pawn_manager@ == pawns_after_frame(
                old(command_manager)@,
                old(world).pawn_manager@,
                self.tool_mode,
                picked,
                history_shortcut_spec(ctrl_down, shift_down, z_pressed),
            ),
            final(world).camera == old(world).camera,
            final(world).map == old(world).map,
    {
        match self.tool_mode {
            ToolMode::Spawn => {},
            ToolMode::Move => {
                if let Some(cmd) = picked {
                    command_manager.execute(cmd, world);
                }
            },
        }
        match history_shortcut(ctrl_down, shift_down, z_pressed) {
            Some(HistoryStep::Undo) => command_manager.undo(world),
            Some(HistoryStep::Redo) => command_manager.redo(world),
            None => {},
        }
    }
}

/// Law: Ctrl+Z without Shift asks for one undo, Ctrl+Shift+Z for one redo,
/// and without Ctrl or without Z nothing is asked for.
pub proof fn lemma_shortcut_keys(ctrl_down: bool, shift_down: bool, z_pressed: bool)
    ensures
        ctrl_down && z_pressed && !shift_down ==> history_shortcut_spec(ctrl_down, shift_down, z_pressed)
            == Some(HistoryStep::Undo),
        ctrl_down && z_pressed && shift_down ==> history_shortcut_spec(ctrl_down, shift_down, z_pressed)
            == Some(HistoryStep::Redo),
        !(ctrl_down && z_pressed) ==> history_shortcut_spec(ctrl_down, shift_down, z_pressed) is None,
{
}

/// The history step that the keys ask for (see `history_shortcut`).
pub open spec fn history_shortcut_spec(ctrl_down: bool, shift_down: bool, z_pressed: bool) -> Option<
    HistoryStep,
> {
    if ctrl_down && z_pressed {
        if shift_down {
            Some(HistoryStep::Redo)
        } else {
            Some(HistoryStep::Undo)
        }
    } else {
        None
    }
}

} // verus!
