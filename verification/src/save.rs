//! Loading a saved editor session: the world as it was saved and the asset
//! manifest that tells which textures to load again.
//!
//! Writing and reading the save file, and the text format it uses, belong to
//! the caller; here a parsed save replaces the session's world and queues
//! the textures its manifest lists.

use vstd::prelude::*;

use crate::asset::{pair_views, with_pairs};
use crate::world::{AppContext, World};

verus! {

/// A save as read back: the world and the manifest's name/path pairs.
pub struct SaveFileOwned<T, S, C> {
    pub world: World<T, S, C>,
    pub manifest: Vec<(String, String)>,
}

/// Replaces the session's world with the saved one and queues a load for
/// every texture of the saved manifest, recording each in the store's
/// manifest. The history of commands is kept as it is.
pub fn load_save_file<T: Copy, S, C, X: Clone>(
    ctx: &mut AppContext<T, S, C, X>,
    save_file: SaveFileOwned<T, S, C>,
)
    ensures
        final(ctx).world == save_file.world,
        final(ctx).command_manger == old(ctx).command_manger,
        final(ctx).asset_store.manifest() == with_pairs(
            old(ctx).asset_store.manifest(),
            pair_views(save_file.manifest@),
        ),
        final(ctx).asset_store.textures() == old(ctx).asset_store.textures(),
        final(ctx).asset_store.pending().len() == old(ctx).asset_store.pending().len()
            + save_file.manifest@.len(),
        final(ctx).asset_store.pending().take(old(ctx).asset_store.pending().len() as int)
            == old(ctx).asset_store.pending(),
        forall|i: int|
            0 <= i < save_file.manifest@.len() ==> {
                let p = #[trigger] final(ctx).asset_store.pending()[old(
                    ctx,
                ).asset_store.pending().len() + i];
                &&& p.name@ == save_file.manifest@[i].0@
                &&& p.path@ == save_file.manifest@[i].1@
            },
{
    ctx.world = save_file.world;
    ctx.asset_store.load_manifest(save_file.manifest);
}

} // verus!
