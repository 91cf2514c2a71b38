use pawn_editor::world::{Pawn, PawnManager, World};

#[derive(Clone, Copy, Debug, PartialEq)]
struct Tf(i32, i32);

fn pawn(uid: u128, x: i32) -> Pawn<Tf, &'static str> {
    Pawn { transform: Tf(x, 0), sprite: "s", uid }
}

fn version_and_variant_ok(u: u128) -> bool {
    u & 0xF000_C000_0000_0000_0000u128 == 0x4000_8000_0000_0000_0000u128
}

#[test]
fn new_pawn_gets_a_random_v4_uid() {
    let a: Pawn<Tf, &str> = Pawn::new(Tf(1, 2), "cavalry");
    let b: Pawn<Tf, &str> = Pawn::new(Tf(1, 2), "cavalry");
    assert_eq!(a.transform, Tf(1, 2));
    assert_eq!(a.sprite, "cavalry");
    assert!(version_and_variant_ok(a.get_uid()));
    assert!(version_and_variant_ok(b.get_uid()));
    assert_ne!(a.get_uid(), b.get_uid());
    assert_eq!(uuid::Uuid::from_u128(a.get_uid()).get_version_num(), 4);
}

#[test]
fn set_transform_keeps_sprite_and_uid() {
    let mut p = pawn(7, 1);
    p.set_transform(Tf(5, 6));
    assert_eq!(p.transform, Tf(5, 6));
    assert_eq!(p.sprite, "s");
    assert_eq!(p.uid, 7);
}

#[test]
fn add_then_get_finds_pawn_by_uid() {
    let mut m: PawnManager<Tf, &str> = PawnManager::new();
    assert!(m.get(1).is_none());
    m.add(pawn(1, 10));
    m.add(pawn(2, 20));
    assert_eq!(m.get(1).unwrap().transform, Tf(10, 0));
    assert_eq!(m.get(2).unwrap().transform, Tf(20, 0));
    assert!(m.get(3).is_none());
}

#[test]
fn add_with_same_uid_replaces() {
    let mut m: PawnManager<Tf, &str> = PawnManager::new();
    m.add(pawn(1, 10));
    m.add(pawn(1, 11));
    assert_eq!(m.get(1).unwrap().transform, Tf(11, 0));
    assert_eq!(m.uids().len(), 1);
}

#[test]
fn set_transform_by_uid_moves_only_that_pawn() {
    let mut m: PawnManager<Tf, &str> = PawnManager::new();
    m.add(pawn(1, 10));
    m.add(pawn(2, 20));
    m.set_transform(2, Tf(-3, 4));
    assert_eq!(m.get(2).unwrap().transform, Tf(-3, 4));
    assert_eq!(m.get(1).unwrap().transform, Tf(10, 0));
    m.set_transform(9, Tf(0, 0));
    assert!(m.get(9).is_none());
    assert_eq!(m.uids().len(), 2);
}

#[test]
fn get_pawns_from_uid_keeps_order_and_skips_missing() {
    let mut m: PawnManager<Tf, &str> = PawnManager::new();
    m.add(pawn(1, 10));
    m.add(pawn(2, 20));
    m.add(pawn(3, 30));
    let found = m.get_pawns_from_uid(vec![3, 99, 1, 3]);
    let xs: Vec<i32> = found.iter().map(|p| p.transform.0).collect();
    assert_eq!(xs, vec![30, 10, 30]);
    assert!(m.get_pawns_from_uid(vec![]).is_empty());
}

#[test]
fn uids_lists_every_pawn_once() {
    let mut m: PawnManager<Tf, &str> = PawnManager::new();
    assert!(m.uids().is_empty());
    for u in [5u128, 9, 2] {
        m.add(pawn(u, 0));
    }
    let mut ids = m.uids();
    ids.sort();
    assert_eq!(ids, vec![2, 5, 9]);
}

#[test]
fn matching_uids_is_the_selected_pawns_of_the_world() {
    let mut m: PawnManager<Tf, &str> = PawnManager::new();
    for u in [1u128, 2, 3, 4] {
        m.add(pawn(u, 0));
    }
    let mut r = m.matching_uids(&[4, 2, 77, 2]);
    r.sort();
    assert_eq!(r, vec![2, 4]);
    assert!(m.matching_uids(&[]).is_empty());
}

#[test]
fn world_holds_camera_and_map() {
    let w: World<Tf, &str, u8> = World { pawn_manager: PawnManager::new(), camera: 3, map: Some("map") };
    assert_eq!(w.camera, 3);
    assert_eq!(w.map, Some("map"));
    assert!(w.pawn_manager.uids().is_empty());
}

#[test]
fn adding_counts_new_uids_only() {
    let mut m: PawnManager<Tf, &str> = PawnManager::new();
    m.add(pawn(1, 0));
    m.add(pawn(2, 0));
    assert_eq!(m.uids().len(), 2);
    m.add(pawn(2, 5));
    assert_eq!(m.uids().len(), 2);
    m.add(pawn(3, 0));
    assert_eq!(m.uids().len(), 3);
}

#[test]
fn moving_a_pawn_repeatedly_keeps_its_identity() {
    let mut p = pawn(11, 0);
    for x in 1..5 {
        p.set_transform(Tf(x, x));
    }
    assert_eq!(p.get_uid(), 11);
    assert_eq!(p.sprite, "s");
    assert_eq!(p.transform, Tf(4, 4));
}
