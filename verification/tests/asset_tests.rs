use std::marker::PhantomData;

use pawn_editor::asset::{Asset, AssetStore, Handle, PendingLoad};
use pawn_editor::sprite::{Pivot, Sprite};

fn loaded_store(names: &[(&str, &str, u32)]) -> AssetStore<u32> {
    let mut store: AssetStore<u32> = AssetStore::default();
    for (n, p, v) in names {
        store.load_texture(n, p);
        let _ = v;
    }
    let pending = store.take_pending();
    for load in pending {
        let v = names.iter().find(|(n, _, _)| *n == load.name).map(|x| x.2).unwrap_or(0);
        store.store_loaded(load, v);
    }
    store
}

#[test]
fn default_store_queues_the_fallback_texture() {
    let mut store: AssetStore<u32> = AssetStore::default();
    let pending = store.take_pending();
    assert_eq!(pending.len(), 1);
    assert_eq!(pending[0].name, "debug");
    assert_eq!(pending[0].path, "assets/test_uv.png");
    assert!(store.take_pending().is_empty());
    assert!(store.get_manifest().is_empty());
}

#[test]
fn load_texture_queues_and_returns_handle() {
    let mut store: AssetStore<u32> = AssetStore::default();
    let h = store.load_texture("cavalry", "assets/cavalry.png");
    assert_eq!(h.name, "cavalry");
    assert_eq!(uuid::Uuid::from_u128(h.uuid).get_version_num(), 4);
    let pending = store.take_pending();
    assert_eq!(pending.len(), 2);
    assert_eq!(pending[1].name, "cavalry");
    assert_eq!(pending[1].path, "assets/cavalry.png");
    assert_eq!(pending[1].uuid, h.uuid);
}

#[test]
fn stored_texture_is_found_by_name() {
    let store = loaded_store(&[("debug", "assets/test_uv.png", 1), ("cavalry", "assets/cavalry.png", 7)]);
    assert_eq!(store.get_texture("cavalry"), 7);
    assert_eq!(store.get_texture("debug"), 1);
}

#[test]
fn missing_texture_falls_back_to_debug() {
    let store = loaded_store(&[("debug", "assets/test_uv.png", 1)]);
    assert_eq!(store.get_texture("farley"), 1);
    let a = store.get_asset_texture("farley");
    assert_eq!(a.key, "debug");
    assert_eq!(a.value, 1);
}

#[test]
fn asset_texture_and_handle_agree() {
    let store = loaded_store(&[("cavalry", "assets/cavalry.png", 7)]);
    let a = store.get_asset_texture("cavalry");
    assert_eq!(a.key, "cavalry");
    assert_eq!(a.source_path, "assets/cavalry.png");
    assert_eq!(a.value, 7);
    let h = store.get_handle_from("cavalry");
    assert_eq!(h.name, "cavalry");
    assert_eq!(h.uuid, a.uuid);
    assert_eq!(uuid::Uuid::from_u128(a.uuid).get_version_num(), 4);
}

#[test]
fn stored_loads_are_recorded_in_the_manifest() {
    let store = loaded_store(&[("debug", "assets/test_uv.png", 1), ("cavalry", "assets/cavalry.png", 7)]);
    let mut m = store.get_manifest();
    m.sort();
    assert_eq!(
        m,
        vec![
            ("cavalry".to_string(), "assets/cavalry.png".to_string()),
            ("debug".to_string(), "assets/test_uv.png".to_string()),
        ]
    );
}

#[test]
fn load_manifest_queues_and_records_each_pair() {
    let mut store: AssetStore<u32> = AssetStore::default();
    store.take_pending();
    store.load_manifest(vec![
        ("a".to_string(), "pa".to_string()),
        ("b".to_string(), "pb".to_string()),
        ("a".to_string(), "pa2".to_string()),
    ]);
    let pending = store.take_pending();
    let names: Vec<&str> = pending.iter().map(|p| p.name.as_str()).collect();
    assert_eq!(names, vec!["a", "b", "a"]);
    let mut m = store.get_manifest();
    m.sort();
    assert_eq!(m, vec![("a".to_string(), "pa2".to_string()), ("b".to_string(), "pb".to_string())]);
}

#[test]
fn reloading_a_name_replaces_its_texture_and_path() {
    let mut store = loaded_store(&[("cavalry", "assets/cavalry.png", 7)]);
    store.store_loaded(PendingLoad::new("cavalry", 0, "assets/cavalry2.png"), 8);
    assert_eq!(store.get_texture("cavalry"), 8);
    let m = store.get_manifest();
    assert_eq!(m.iter().filter(|p| p.0 == "cavalry").count(), 1);
    assert!(m.contains(&("cavalry".to_string(), "assets/cavalry2.png".to_string())));
}

#[test]
fn handle_from_asset() {
    let a = Asset { value: 3u32, key: "k".to_string(), uuid: 12, source_path: "p".to_string() };
    let h: Handle<u32> = Handle::from(&a);
    assert_eq!(h.uuid, 12);
    assert_eq!(h.name, "k");
    let c = h.clone();
    assert_eq!(c.name, "k");
    assert_eq!(c.uuid, 12);
}

#[test]
fn pending_load_new() {
    let p = PendingLoad::new("n", 5, "path");
    assert_eq!(p.name, "n");
    assert_eq!(p.uuid, 5);
    assert_eq!(p.path, "path");
}

#[test]
fn sprite_takes_its_texture_from_the_store() {
    let store = loaded_store(&[("debug", "assets/test_uv.png", 1), ("cavalry", "assets/cavalry.png", 7)]);
    let h = store.get_handle_from("cavalry");
    let s: Sprite<u32, (f32, f32)> = Sprite::new(h, &store);
    assert_eq!(s.texture, 7);
    assert_eq!(s.pivot, Pivot::Center);
    assert!(s.custom_size.is_none());
    let missing = Handle { uuid: 0, name: "nope".to_string(), _marker: PhantomData };
    let f: Sprite<u32, (f32, f32)> = Sprite::new(missing, &store);
    assert_eq!(f.texture, 1);
}

#[test]
fn sprite_hydrate_and_set_size() {
    let mut store = loaded_store(&[("cavalry", "assets/cavalry.png", 7)]);
    let h = store.get_handle_from("cavalry");
    let mut s: Sprite<u32, (f32, f32)> = Sprite::new(h, &store);
    store.store_loaded(PendingLoad::new("cavalry", 0, "assets/cavalry.png"), 9);
    s.hydrate(&store);
    assert_eq!(s.texture, 9);
    s.set_size((1000.0, -1000.0));
    assert_eq!(s.custom_size, Some((1000.0, -1000.0)));
    assert_eq!(Pivot::default(), Pivot::Center);
}
