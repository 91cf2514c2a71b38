use pawn_editor::command::{CommandManager, MoveCommand, UnReCommand};
use pawn_editor::world::{Pawn, PawnManager, World};

#[derive(Clone, Copy, Debug, PartialEq)]
struct Tf(i32, i32);

fn world_with(pawns: &[(u128, Tf)]) -> World<Tf, &'static str, ()> {
    let mut pm = PawnManager::new();
    for (uid, t) in pawns {
        pm.add(Pawn { transform: *t, sprite: "s", uid: *uid });
    }
    World { pawn_manager: pm, camera: (), map: None }
}

fn at(w: &World<Tf, &'static str, ()>, uid: u128) -> Tf {
    w.pawn_manager.get(uid).unwrap().transform
}

#[test]
fn move_command_new_records_one_move() {
    let c = MoveCommand::new(4, Tf(0, 0), Tf(1, 1));
    assert_eq!(c.saved_pawns().clone(), vec![(4u128, Tf(0, 0), Tf(1, 1))]);
}

#[test]
fn move_command_execute_and_undo() {
    let mut w = world_with(&[(1, Tf(0, 0)), (2, Tf(5, 5))]);
    let c = MoveCommand::batch(vec![(1, Tf(0, 0), Tf(3, 4)), (9, Tf(0, 0), Tf(7, 7))]);
    c.execute(&mut w.pawn_manager);
    assert_eq!(at(&w, 1), Tf(3, 4));
    assert_eq!(at(&w, 2), Tf(5, 5));
    assert!(w.pawn_manager.get(9).is_none());
    c.undo(&mut w.pawn_manager);
    assert_eq!(at(&w, 1), Tf(0, 0));
    assert_eq!(at(&w, 2), Tf(5, 5));
}

#[test]
fn last_record_for_a_pawn_wins() {
    let mut w = world_with(&[(1, Tf(0, 0))]);
    let c = MoveCommand::batch(vec![(1, Tf(0, 0), Tf(1, 1)), (1, Tf(8, 8), Tf(2, 2))]);
    c.execute(&mut w.pawn_manager);
    assert_eq!(at(&w, 1), Tf(2, 2));
    c.undo(&mut w.pawn_manager);
    assert_eq!(at(&w, 1), Tf(8, 8));
}

#[test]
fn executing_twice_is_executing_once() {
    let mut w = world_with(&[(1, Tf(0, 0)), (2, Tf(1, 1))]);
    let c = UnReCommand::Move(MoveCommand::batch(vec![(1, Tf(0, 0), Tf(3, 3)), (2, Tf(1, 1), Tf(4, 4))]));
    c.execute(&mut w);
    c.execute(&mut w);
    assert_eq!(at(&w, 1), Tf(3, 3));
    assert_eq!(at(&w, 2), Tf(4, 4));
}

#[test]
fn label_names_the_move_command() {
    let c: UnReCommand<Tf> = UnReCommand::Move(MoveCommand::batch(vec![]));
    assert_eq!(c.label(), "UnReCommand::Move");
}

#[test]
fn transform_pawn_batches_moves() {
    let c = CommandManager::transform_pawn(vec![(1, Tf(0, 0), Tf(1, 0)), (2, Tf(0, 0), Tf(2, 0))]);
    assert_eq!(c.saved_pawns().len(), 2);
    assert_eq!(c.saved_pawns()[1], (2u128, Tf(0, 0), Tf(2, 0)));
}

#[test]
fn history_execute_undo_redo() {
    let mut w = world_with(&[(1, Tf(0, 0))]);
    let mut cm: CommandManager<Tf> = CommandManager::new();
    cm.execute(UnReCommand::Move(MoveCommand::new(1, Tf(0, 0), Tf(1, 0))), &mut w);
    cm.execute(UnReCommand::Move(MoveCommand::new(1, Tf(1, 0), Tf(2, 0))), &mut w);
    assert_eq!(at(&w, 1), Tf(2, 0));
    cm.undo(&mut w);
    assert_eq!(at(&w, 1), Tf(1, 0));
    cm.undo(&mut w);
    assert_eq!(at(&w, 1), Tf(0, 0));
    cm.redo(&mut w);
    assert_eq!(at(&w, 1), Tf(1, 0));
    cm.redo(&mut w);
    assert_eq!(at(&w, 1), Tf(2, 0));
    cm.redo(&mut w);
    assert_eq!(at(&w, 1), Tf(2, 0));
}

#[test]
fn undo_with_empty_history_does_nothing() {
    let mut w = world_with(&[(1, Tf(3, 3))]);
    let mut cm: CommandManager<Tf> = CommandManager::default();
    cm.undo(&mut w);
    cm.redo(&mut w);
    assert_eq!(at(&w, 1), Tf(3, 3));
}

#[test]
fn execute_clears_what_could_be_redone() {
    let mut w = world_with(&[(1, Tf(0, 0))]);
    let mut cm: CommandManager<Tf> = CommandManager::new();
    cm.execute(UnReCommand::Move(MoveCommand::new(1, Tf(0, 0), Tf(1, 0))), &mut w);
    cm.undo(&mut w);
    cm.execute(UnReCommand::Move(MoveCommand::new(1, Tf(0, 0), Tf(5, 0))), &mut w);
    cm.redo(&mut w);
    assert_eq!(at(&w, 1), Tf(5, 0));
    cm.undo(&mut w);
    assert_eq!(at(&w, 1), Tf(0, 0));
    cm.undo(&mut w);
    assert_eq!(at(&w, 1), Tf(0, 0));
}

#[test]
fn undo_right_after_execute_restores_world() {
    let mut w = world_with(&[(1, Tf(0, 0)), (2, Tf(9, 9))]);
    let mut cm: CommandManager<Tf> = CommandManager::new();
    let cmd = UnReCommand::Move(MoveCommand::batch(vec![(1, Tf(0, 0), Tf(4, 4)), (2, Tf(9, 9), Tf(1, 2))]));
    cm.execute(cmd, &mut w);
    cm.undo(&mut w);
    assert_eq!(at(&w, 1), Tf(0, 0));
    assert_eq!(at(&w, 2), Tf(9, 9));
    cm.redo(&mut w);
    assert_eq!(at(&w, 1), Tf(4, 4));
    assert_eq!(at(&w, 2), Tf(1, 2));
}

#[test]
fn history_keeps_camera_and_map() {
    let mut pm = PawnManager::new();
    pm.add(Pawn { transform: Tf(0, 0), sprite: "s", uid: 1 });
    let mut w: World<Tf, &str, u32> = World { pawn_manager: pm, camera: 42, map: Some("m") };
    let mut cm: CommandManager<Tf> = CommandManager::new();
    cm.execute(UnReCommand::Move(MoveCommand::new(1, Tf(0, 0), Tf(1, 1))), &mut w);
    cm.undo(&mut w);
    assert_eq!(w.camera, 42);
    assert_eq!(w.map, Some("m"));
}

#[test]
fn redo_then_undo_restores_world() {
    let mut w = world_with(&[(1, Tf(0, 0))]);
    let mut cm: CommandManager<Tf> = CommandManager::new();
    cm.execute(UnReCommand::Move(MoveCommand::new(1, Tf(0, 0), Tf(3, 0))), &mut w);
    cm.undo(&mut w);
    assert_eq!(at(&w, 1), Tf(0, 0));
    cm.redo(&mut w);
    cm.undo(&mut w);
    assert_eq!(at(&w, 1), Tf(0, 0));
}

#[test]
fn commands_keep_pawns_sprites_and_uids() {
    let mut pm = PawnManager::new();
    pm.add(Pawn { transform: Tf(0, 0), sprite: "knight", uid: 1 });
    pm.add(Pawn { transform: Tf(1, 1), sprite: "rook", uid: 2 });
    let mut w: World<Tf, &str, ()> = World { pawn_manager: pm, camera: (), map: None };
    let cmd = UnReCommand::Move(MoveCommand::batch(vec![(1, Tf(0, 0), Tf(5, 5)), (3, Tf(0, 0), Tf(6, 6))]));
    cmd.execute(&mut w);
    let p = w.pawn_manager.get(1).unwrap();
    assert_eq!((p.sprite, p.uid, p.transform), ("knight", 1, Tf(5, 5)));
    let mut ids = w.pawn_manager.uids();
    ids.sort();
    assert_eq!(ids, vec![1, 2]);
    cmd.undo(&mut w);
    assert_eq!(w.pawn_manager.get(2).unwrap().sprite, "rook");
    assert_eq!(w.pawn_manager.uids().len(), 2);
}
