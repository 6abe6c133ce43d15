use adventure::atlas::TextureAtlas;
use adventure::render2d::{AtlasError, TextureId};

#[test]
fn allocate_assigns_unique_ids() {
    let mut a = TextureAtlas::new(256, 256);
    let a1 = a.allocate(32, 32).unwrap();
    let a2 = a.allocate(32, 32).unwrap();
    assert_ne!(a1, a2);
}

#[test]
fn first_id_is_first() {
    let mut a = TextureAtlas::new(256, 256);
    let id = a.allocate(8, 8).unwrap();
    assert_eq!(id, TextureId::first());
}

#[test]
fn uv_in_unit_range() {
    let mut a = TextureAtlas::new(256, 256);
    let id = a.allocate(64, 64).unwrap();
    let r = a.pixel_rect(id).unwrap();
    let [w, h] = a.size();
    let (w, h) = (w as f32, h as f32);
    let (u0, v0) = (r.min_x as f32 / w, r.min_y as f32 / h);
    let (u1, v1) = (r.max_x as f32 / w, r.max_y as f32 / h);
    assert!(u0 >= 0.0 && u0 <= 1.0);
    assert!(v0 >= 0.0 && v0 <= 1.0);
    assert!(u1 >= 0.0 && u1 <= 1.0);
    assert!(v1 >= 0.0 && v1 <= 1.0);
    assert!(u1 > u0);
    assert!(v1 > v0);
}

#[test]
fn deallocate_frees_slot() {
    let mut a = TextureAtlas::new(64, 64);
    let id = a.allocate(32, 32).unwrap();
    a.deallocate(id);
    assert!(a.pixel_rect(id).is_none());
}

#[test]
fn fill_atlas_returns_full() {
    let mut a = TextureAtlas::new(16, 16);
    assert!(matches!(a.allocate(32, 32), Err(AtlasError::Full { .. })));
}

#[test]
fn deallocate_then_realloc() {
    let mut a = TextureAtlas::new(64, 64);
    let id1 = a.allocate(32, 32).unwrap();
    a.deallocate(id1);
    let id2 = a.allocate(32, 32).unwrap();
    assert_ne!(id1, id2);
}

#[test]
fn allocation_has_requested_size() {
    let mut a = TextureAtlas::new(128, 64);
    let id = a.allocate(40, 24).unwrap();
    let r = a.pixel_rect(id).unwrap();
    assert_eq!(r.max_x - r.min_x, 40);
    assert_eq!(r.max_y - r.min_y, 24);
    assert_eq!(a.size(), [128, 64]);
}

#[test]
fn empty_size_is_full() {
    let mut a = TextureAtlas::new(64, 64);
    assert_eq!(a.allocate(0, 8), Err(AtlasError::Full { w: 0, h: 8 }));
    let id = a.allocate(8, 8).unwrap();
    assert_eq!(id, TextureId::first());
}

#[test]
fn deallocate_unknown_id_is_no_op() {
    let mut a = TextureAtlas::new(64, 64);
    let id = a.allocate(8, 8).unwrap();
    a.deallocate(TextureId(42));
    assert!(a.pixel_rect(id).is_some());
}

#[test]
fn live_rectangles_never_overlap_and_fresh_atlas_takes_a_full_size_request() {
    let mut a = TextureAtlas::new(64, 64);
    let ids: Vec<TextureId> = (0..6).filter_map(|_| a.allocate(20, 20).ok()).collect();
    assert!(ids.len() >= 4);
    for (n, x) in ids.iter().enumerate() {
        for y in &ids[n + 1..] {
            let (p, q) = (a.pixel_rect(*x).unwrap(), a.pixel_rect(*y).unwrap());
            assert!(p.max_x <= q.min_x || q.max_x <= p.min_x || p.max_y <= q.min_y || q.max_y <= p.min_y);
        }
    }
    for id in &ids {
        a.deallocate(*id);
    }
    assert!(a.allocate(64, 64).is_ok());
}
