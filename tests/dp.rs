use kangaroo::dp::{is_distinguished, jump_index, DPTable, DpRecord, Herd};
use kangaroo::gpu::affine_to_gpu;
use kangaroo::math::create_dp_mask;

fn rec(key: u8, herd: Herd, dist: u8, id: u32) -> DpRecord {
    let mut x_key = [0u8; 32];
    x_key[0] = key;
    let mut distance = [0u8; 32];
    distance[31] = dist;
    DpRecord { x_key, herd, distance, kangaroo_id: id }
}

#[test]
fn dp_table_new_key_is_stored() {
    let mut t = DPTable::new();
    assert!(t.insert(rec(1, Herd::Tame, 10, 0)).is_none());
    assert!(t.insert(rec(2, Herd::Wild, 20, 1)).is_none());
    assert_eq!(t.len(), 2);
    let mut k = [0u8; 32];
    k[0] = 2;
    let e = t.get(&k).unwrap();
    assert_eq!(e.distance[31], 20);
    assert_eq!(e.kangaroo_id, 1);
    k[0] = 3;
    assert!(t.get(&k).is_none());
}

#[test]
fn dp_table_same_herd_keeps_first() {
    let mut t = DPTable::new();
    assert!(t.insert(rec(5, Herd::Wild, 10, 0)).is_none());
    assert!(t.insert(rec(5, Herd::Wild, 99, 7)).is_none());
    assert_eq!(t.len(), 1);
    let mut k = [0u8; 32];
    k[0] = 5;
    assert_eq!(t.get(&k).unwrap().distance[31], 10);
}

#[test]
fn dp_table_tame_then_wild_collides() {
    let mut t = DPTable::new();
    assert!(t.insert(rec(9, Herd::Tame, 30, 0)).is_none());
    let c = t.insert(rec(9, Herd::Wild, 4, 3)).unwrap();
    assert_eq!(c.tame_distance[31], 30);
    assert_eq!(c.wild_distance[31], 4);
    assert_eq!(t.len(), 1);
}

#[test]
fn dp_table_wild_then_tame_collides() {
    let mut t = DPTable::new();
    assert!(t.insert(rec(9, Herd::Wild, 4, 3)).is_none());
    let c = t.insert(rec(9, Herd::Tame, 30, 0)).unwrap();
    assert_eq!(c.tame_distance[31], 30);
    assert_eq!(c.wild_distance[31], 4);
}

#[test]
fn distinguished_under_mask() {
    let mask = create_dp_mask(8);
    let mut x = [0u32; 8];
    x[0] = 0x1234_5600;
    assert!(is_distinguished(&x, &mask));
    x[0] = 0x1234_5601;
    assert!(!is_distinguished(&x, &mask));
    let mask40 = create_dp_mask(40);
    let mut y = [0u32; 8];
    y[1] = 0x100;
    assert!(is_distinguished(&y, &mask40));
    y[1] = 0x80;
    assert!(!is_distinguished(&y, &mask40));
}

#[test]
fn jump_index_uses_low_limb() {
    let x: [u32; 8] = [0x25, 0xFFFF_FFFF, 0, 0, 0, 0, 0, 0];
    assert_eq!(jump_index(&x, 32), 5);
    assert_eq!(jump_index(&x, 1), 0);
}

#[test]
fn affine_to_gpu_generator() {
    let g = affine_to_gpu(&k256::AffinePoint::GENERATOR).unwrap();
    assert_eq!(g.x[0], 0x16F8_1798);
    assert_eq!(g.x[7], 0x79BE_667E);
    assert_eq!(g.y[0], 0xFB10_D4B8);
    assert_eq!(g.y[7], 0x483A_DA77);
}

#[test]
fn affine_to_gpu_identity_has_no_coordinates() {
    assert!(affine_to_gpu(&k256::AffinePoint::IDENTITY).is_none());
}
