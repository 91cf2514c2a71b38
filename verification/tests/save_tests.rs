use pawn_editor::asset::AssetStore;
use pawn_editor::command::CommandManager;
use pawn_editor::save::{load_save_file, SaveFileOwned};
use pawn_editor::world::{AppContext, Pawn, PawnManager, World};

#[derive(Clone, Copy, Debug, PartialEq)]
struct Tf(i32, i32);

#[test]
fn loading_a_save_replaces_world_and_queues_manifest() {
    let mut ctx: AppContext<Tf, &str, u8, u32> = AppContext {
        command_manger: CommandManager::new(),
        asset_store: AssetStore::default(),
        world: World { pawn_manager: PawnManager::new(), camera: 0, map: None },
    };
    ctx.asset_store.take_pending();
    let mut pm = PawnManager::new();
    pm.add(Pawn { transform: Tf(4, 4), sprite: "cav", uid: 77 });
    let save = SaveFileOwned {
        world: World { pawn_manager: pm, camera: 9, map: Some("map") },
        manifest: vec![("cavalry".to_string(), "assets/cavalry.png".to_string())],
    };
    load_save_file(&mut ctx, save);
    assert_eq!(ctx.world.camera, 9);
    assert_eq!(ctx.world.map, Some("map"));
    assert_eq!(ctx.world.pawn_manager.get(77).unwrap().transform, Tf(4, 4));
    let pending = ctx.asset_store.take_pending();
    assert_eq!(pending.len(), 1);
    assert_eq!(pending[0].name, "cavalry");
    assert_eq!(pending[0].path, "assets/cavalry.png");
    assert_eq!(ctx.asset_store.get_manifest(), vec![("cavalry".to_string(), "assets/cavalry.png".to_string())]);
}
