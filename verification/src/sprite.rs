//! Sprites: a texture taken from the asset store, an optional size that
//! overrides the texture's own, and the pivot that the sprite is placed by.

use vstd::prelude::*;

use crate::asset::{AssetStore, Handle};

verus! {

/// The point of a sprite that stands at its position.
#[derive(Debug, Clone, Copy, PartialEq, Eq, Structural)]
pub enum Pivot {
    Center,
    TopLeft,
    TopRight,
    BottomLeft,
    BottomRight,
}

impl Default for Pivot {
    fn default() -> (p: Self)
        ensures
            p == Pivot::Center,
    {
        Pivot::Center
    }
}

/// How an image fills the area it is given.
#[derive(Debug, Clone, Copy, PartialEq, Eq, Structural)]
pub enum SpriteImageMode {
    Center,
    Fill,
}

/// A drawable image: the handle it was made from, the texture that the
/// handle's name found in the asset store, an optional size and a pivot.
#[derive(Clone)]
pub struct Sprite<X, V> {
    pub handle: Handle<X>,
    pub texture: X,
    pub custom_size: Option<V>,
    pub pivot: Pivot,
}

impl<X: Clone, V> Sprite<X, V> {
    /// A sprite for `handle`, showing the texture that the store finds under
    /// the handle's name, at the texture's own size, placed by its center.
    pub fn new(handle: Handle<X>, asset_store: &AssetStore<X>) -> (s: Self)
        requires
            asset_store.can_find(handle.name@),
        ensures
            s.handle == handle,
            cloned(asset_store.texture_for(handle.name@).value, s.texture),
            s.custom_size is None,
            s.pivot == Pivot::Center,
    {
        let tex = asset_store.get_texture(handle.name.as_str());
        Sprite { handle, texture: tex, pivot: Pivot::Center, custom_size: None }
    }

    /// Takes the texture afresh from the store, by the handle's name.
    pub fn hydrate(&mut self, asset_store: &AssetStore<X>)
        requires
            asset_store.can_find(old(self).handle.name@),
        ensures
            cloned(asset_store.texture_for(old(self).handle.name@).value, final(self).texture),
            final(self).handle == old(self).handle,
            final(self).custom_size == old(self).custom_size,
            final(self).pivot == old(self).pivot,
    {
        self.texture = asset_store.get_texture(self.handle.name.as_str());
    }

    /// Gives the sprite the size `size`, in place of the texture's own.
    pub fn set_size(&mut self, size: V)
        ensures
            final(self).custom_size == Some(size),
            final(self).handle == old(self).handle,
            final(self).texture == old(self).texture,
            final(self).pivot == old(self).pivot,
    {
        self.custom_size = Some(size);
    }
}

} // verus!
