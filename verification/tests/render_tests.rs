use adventure::render2d::{DrawEffect, ShaderKind, SortKey, TextureId};

#[test]
fn default_is_none() {
    assert_eq!(DrawEffect::default(), DrawEffect::none());
}

#[test]
fn combine_flags() {
    let e = DrawEffect::premultiplied_alpha().union(DrawEffect::no_blending());
    assert!(e.contains(DrawEffect::premultiplied_alpha()));
    assert!(e.contains(DrawEffect::no_blending()));
    assert!(!e.contains(DrawEffect::tinted()));
}

#[test]
fn bits_unique() {
    let all = [
        DrawEffect::premultiplied_alpha(),
        DrawEffect::no_blending(),
        DrawEffect::invert_alpha(),
        DrawEffect::segregated_alpha(),
        DrawEffect::tinted(),
        DrawEffect::from_srgb(),
    ];
    for (i, a) in all.iter().enumerate() {
        assert_eq!(a.bits().count_ones(), 1);
        for b in &all[i + 1..] {
            assert_eq!(a.bits() & b.bits(), 0);
        }
    }
    assert_eq!(DrawEffect::from_bits_truncate(0xffff_ffff).bits(), 63);
}

#[test]
fn index_round_trips() {
    for k in [ShaderKind::Sprite, ShaderKind::Multiply, ShaderKind::Overlay, ShaderKind::Post] {
        assert_eq!(k.index(), k.index());
    }
}

#[test]
fn count_matches_variants() {
    let mut idx = vec![0usize; ShaderKind::count()];
    for k in [ShaderKind::Sprite, ShaderKind::Multiply, ShaderKind::Overlay, ShaderKind::Post] {
        idx[k.index()] += 1;
    }
    assert!(idx.iter().all(|&n| n == 1));
}

#[test]
fn wgsl_nonempty() {
    for k in [ShaderKind::Sprite, ShaderKind::Multiply, ShaderKind::Overlay, ShaderKind::Post] {
        assert!(!k.wgsl().is_empty());
    }
    assert!(ShaderKind::Sprite.wgsl().contains("fn vs_main"));
    assert_eq!(ShaderKind::default(), ShaderKind::Sprite);
}

#[test]
fn sort_order_layers() {
    let mut ks = [
        SortKey::of(5, ShaderKind::Sprite, DrawEffect::none(), TextureId::first()),
        SortKey::of(0, ShaderKind::Sprite, DrawEffect::none(), TextureId::first()),
        SortKey::of(3, ShaderKind::Sprite, DrawEffect::none(), TextureId::first()),
    ];
    ks.sort();
    assert_eq!(ks[0].layer, 0);
    assert_eq!(ks[1].layer, 3);
    assert_eq!(ks[2].layer, 5);
}

#[test]
fn sort_order_within_layer_by_shader() {
    let s1 = SortKey::of(0, ShaderKind::Sprite, DrawEffect::none(), TextureId::first());
    let s2 = SortKey::of(0, ShaderKind::Post, DrawEffect::none(), TextureId::first());
    assert!(s1 < s2);
    assert!(s1.precedes(&s2));
}

#[test]
fn sort_order_within_layer_by_effect() {
    let a = SortKey::of(0, ShaderKind::Sprite, DrawEffect::none(), TextureId::first());
    let b = SortKey::of(0, ShaderKind::Sprite, DrawEffect::tinted(), TextureId::first());
    assert!(a < b);
    assert!(a.precedes(&b));
}

#[test]
fn sort_order_within_layer_by_texture() {
    let a = SortKey::of(0, ShaderKind::Sprite, DrawEffect::none(), TextureId(2));
    let b = SortKey::of(0, ShaderKind::Sprite, DrawEffect::none(), TextureId(5));
    assert!(a < b);
    assert!(a.precedes(&b));
    assert!(!b.precedes(&a));
}

#[test]
fn equal_keys_equal() {
    let e = DrawEffect::tinted().union(DrawEffect::no_blending());
    let a = SortKey::of(2, ShaderKind::Sprite, e, TextureId(7));
    let b = SortKey::of(2, ShaderKind::Sprite, e, TextureId(7));
    assert_eq!(a, b);
    assert!(!a.precedes(&b));
}

#[test]
fn texture_ids() {
    assert_eq!(TextureId::default(), TextureId::none());
    assert_eq!(TextureId::first().0, 1);
}
