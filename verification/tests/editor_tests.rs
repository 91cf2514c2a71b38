use pawn_editor::command::{CommandManager, MoveCommand, UnReCommand};
use pawn_editor::editor::{history_shortcut, EditorState, HistoryStep, SelectionTool, ToolMode};
use pawn_editor::world::{Pawn, PawnManager, World};

#[derive(Clone, Copy, Debug, PartialEq)]
struct Tf(i32, i32);

fn world_with(pawns: &[(u128, Tf)]) -> World<Tf, &'static str, ()> {
    let mut pm = PawnManager::new();
    for (uid, t) in pawns {
        pm.add(Pawn { transform: *t, sprite: "s", uid: *uid });
    }
    World { pawn_manager: pm, camera: (), map: None }
}

fn at(w: &World<Tf, &'static str, ()>, uid: u128) -> Tf {
    w.pawn_manager.get(uid).unwrap().transform
}

#[test]
fn tool_mode_labels_and_default() {
    assert_eq!(ToolMode::Spawn.label(), "Select");
    assert_eq!(ToolMode::Move.label(), "Move");
    assert_eq!(ToolMode::default(), ToolMode::Spawn);
}

#[test]
fn click_on_nothing_clears_selection() {
    let mut s: SelectionTool<Tf, (i32, i32)> = SelectionTool::new((0, 0));
    s.update_selected_pawns(vec![1, 2], false);
    assert_eq!(s.selections().clone(), vec![1, 2]);
    s.update_selected_pawns(vec![], true);
    assert!(s.selections().is_empty());
}

#[test]
fn additive_click_adds_what_is_missing() {
    let mut s: SelectionTool<Tf, ()> = SelectionTool::new(());
    s.update_selected_pawns(vec![1, 2], false);
    s.update_selected_pawns(vec![2, 3, 3, 4], true);
    assert_eq!(s.selections().clone(), vec![1, 2, 3, 4]);
    s.update_selected_pawns(vec![2, 3, 4], true);
    assert_eq!(s.selections().clone(), vec![1, 2, 3, 4]);
}

#[test]
fn plain_click_on_a_selected_pawn_keeps_selection() {
    let mut s: SelectionTool<Tf, ()> = SelectionTool::new(());
    s.update_selected_pawns(vec![1, 2], false);
    s.update_selected_pawns(vec![5, 2], false);
    assert_eq!(s.selections().clone(), vec![1, 2]);
}

#[test]
fn plain_click_elsewhere_selects_what_it_hit() {
    let mut s: SelectionTool<Tf, ()> = SelectionTool::new(());
    s.update_selected_pawns(vec![1, 2], false);
    s.update_selected_pawns(vec![7, 8], false);
    assert_eq!(s.selections().clone(), vec![7, 8]);
}

#[test]
fn save_pre_transform_appends_selected_transforms() {
    let w = world_with(&[(1, Tf(1, 0)), (2, Tf(2, 0))]);
    let mut s: SelectionTool<Tf, ()> = SelectionTool::new(());
    s.update_selected_pawns(vec![2, 9, 1], false);
    s.save_pre_transform(&w);
    assert_eq!(s.pre_transforms().clone(), vec![Tf(2, 0), Tf(1, 0)]);
    s.save_pre_transform(&w);
    assert_eq!(s.pre_transforms().len(), 4);
}

#[test]
fn press_on_nothing_forgets_saved_transforms() {
    let w = world_with(&[(1, Tf(1, 0))]);
    let mut s: SelectionTool<Tf, i32> = SelectionTool::new(0);
    s.press_pick(&w, vec![1], false, 5);
    assert_eq!(s.pre_transforms().clone(), vec![Tf(1, 0)]);
    assert_eq!(*s.pre_picked_center(), 5);
    s.press_pick(&w, vec![], false, 6);
    assert!(s.selections().is_empty());
    assert!(s.pre_transforms().is_empty());
    assert_eq!(*s.pre_picked_center(), 5);
}

#[test]
fn drag_release_makes_an_undoable_move() {
    let mut w = world_with(&[(1, Tf(1, 1)), (2, Tf(2, 2)), (3, Tf(3, 3))]);
    let mut s: SelectionTool<Tf, ()> = SelectionTool::new(());
    s.press_pick(&w, vec![2], false, ());
    w.pawn_manager.set_transform(2, Tf(20, 20));
    let cmd = s.release_pick(&w);
    assert!(s.pre_transforms().is_empty());
    let UnReCommand::Move(mc) = &cmd;
    assert_eq!(mc.saved_pawns().clone(), vec![(2u128, Tf(2, 2), Tf(20, 20))]);
    let mut cm: CommandManager<Tf> = CommandManager::new();
    cm.execute(cmd, &mut w);
    assert_eq!(at(&w, 2), Tf(20, 20));
    cm.undo(&mut w);
    assert_eq!(at(&w, 2), Tf(2, 2));
    assert_eq!(at(&w, 1), Tf(1, 1));
}

#[test]
fn release_covers_every_selected_pawn_once() {
    let w = world_with(&[(1, Tf(1, 1)), (2, Tf(2, 2)), (3, Tf(3, 3))]);
    let mut s: SelectionTool<Tf, ()> = SelectionTool::new(());
    s.press_pick(&w, vec![1, 3], false, ());
    let UnReCommand::Move(mc) = s.release_pick(&w);
    let mut ids: Vec<u128> = mc.saved_pawns().iter().map(|m| m.0).collect();
    ids.sort();
    assert_eq!(ids, vec![1, 3]);
}

#[test]
fn release_with_nothing_selected_is_an_empty_move() {
    let w = world_with(&[(1, Tf(1, 1))]);
    let mut s: SelectionTool<Tf, ()> = SelectionTool::new(());
    let UnReCommand::Move(mc) = s.release_pick(&w);
    assert!(mc.saved_pawns().is_empty());
}

#[test]
fn selected_pawns_in_selection_order() {
    let w = world_with(&[(1, Tf(1, 1)), (2, Tf(2, 2))]);
    let mut s: SelectionTool<Tf, ()> = SelectionTool::new(());
    s.update_selected_pawns(vec![2, 5, 1], false);
    let ps = s.get_selected_pawns(&w);
    let ids: Vec<u128> = ps.iter().map(|p| p.uid).collect();
    assert_eq!(ids, vec![2, 1]);
}

#[test]
fn shortcuts_for_undo_and_redo() {
    assert_eq!(history_shortcut(true, false, true), Some(HistoryStep::Undo));
    assert_eq!(history_shortcut(true, true, true), Some(HistoryStep::Redo));
    assert_eq!(history_shortcut(false, false, true), None);
    assert_eq!(history_shortcut(true, false, false), None);
    assert_eq!(history_shortcut(false, true, true), None);
}

#[test]
fn editor_update_runs_picked_command_only_in_move_mode() {
    let mut w = world_with(&[(1, Tf(0, 0))]);
    let mut cm: CommandManager<Tf> = CommandManager::new();
    let mut e: EditorState<Tf, ()> = EditorState::new(());
    let cmd = || Some(UnReCommand::Move(MoveCommand::new(1, Tf(0, 0), Tf(6, 6))));
    e.update(&mut w, &mut cm, cmd(), false, false, false);
    assert_eq!(at(&w, 1), Tf(0, 0));
    e.tool_mode = ToolMode::Move;
    e.update(&mut w, &mut cm, cmd(), false, false, false);
    assert_eq!(at(&w, 1), Tf(6, 6));
    e.update(&mut w, &mut cm, None, true, false, true);
    assert_eq!(at(&w, 1), Tf(0, 0));
    e.update(&mut w, &mut cm, None, true, true, true);
    assert_eq!(at(&w, 1), Tf(6, 6));
}

#[test]
fn additive_click_with_repeated_hits_selects_each_once() {
    let mut s: SelectionTool<Tf, ()> = SelectionTool::new(());
    s.update_selected_pawns(vec![3, 3, 1, 3], true);
    assert_eq!(s.selections().clone(), vec![3, 1]);
}

#[test]
fn click_selects_only_what_it_hit() {
    let mut s: SelectionTool<Tf, ()> = SelectionTool::new(());
    s.update_selected_pawns(vec![4], false);
    s.update_selected_pawns(vec![5, 6], true);
    for u in s.selections() {
        assert!([4u128, 5, 6].contains(u));
    }
}
