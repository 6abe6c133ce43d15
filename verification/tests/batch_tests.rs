use adventure::batch::{plan_batches, BatchPlan};
use adventure::render2d::{DrawEffect, ShaderKind, SortKey, TextureId};

fn k(layer: i32, shader: ShaderKind, tex: TextureId, effect: DrawEffect) -> SortKey {
    SortKey::of(layer, shader, effect, tex)
}

fn plan(keys: &[SortKey]) -> Vec<BatchPlan> {
    plan_batches(&keys.to_vec())
}

#[test]
fn empty_finish() {
    assert!(plan(&[]).is_empty());
}

#[test]
fn equal_keys_merge_into_one_batch() {
    let a = k(0, ShaderKind::Sprite, TextureId::first(), DrawEffect::none());
    let out = plan(&[a, a, a]);
    assert_eq!(out.len(), 1);
    assert_eq!(out[0].members, vec![0, 1, 2]);
    assert_eq!(out[0].key, a);
}

#[test]
fn different_layers_dont_merge() {
    let out = plan(&[
        k(0, ShaderKind::Sprite, TextureId::first(), DrawEffect::none()),
        k(1, ShaderKind::Sprite, TextureId::first(), DrawEffect::none()),
    ]);
    assert_eq!(out.len(), 2);
    assert!(out[0].key.layer < out[1].key.layer);
}

#[test]
fn different_textures_dont_merge() {
    let out = plan(&[
        k(0, ShaderKind::Sprite, TextureId(1), DrawEffect::none()),
        k(0, ShaderKind::Sprite, TextureId(2), DrawEffect::none()),
    ]);
    assert_eq!(out.len(), 2);
}

#[test]
fn different_shaders_dont_merge() {
    let out = plan(&[
        k(0, ShaderKind::Sprite, TextureId::first(), DrawEffect::none()),
        k(0, ShaderKind::Multiply, TextureId::first(), DrawEffect::none()),
    ]);
    assert_eq!(out.len(), 2);
}

#[test]
fn different_effects_dont_merge() {
    let out = plan(&[
        k(0, ShaderKind::Sprite, TextureId::first(), DrawEffect::none()),
        k(0, ShaderKind::Sprite, TextureId::first(), DrawEffect::tinted()),
    ]);
    assert_eq!(out.len(), 2);
}

#[test]
fn out_of_order_input_gets_sorted() {
    let out = plan(&[
        k(5, ShaderKind::Sprite, TextureId::first(), DrawEffect::none()),
        k(0, ShaderKind::Sprite, TextureId::first(), DrawEffect::none()),
        k(5, ShaderKind::Sprite, TextureId::first(), DrawEffect::none()),
    ]);
    assert_eq!(out.len(), 2);
    assert_eq!(out[0].key.layer, 0);
    assert_eq!(out[1].key.layer, 5);
    assert_eq!(out[0].members, vec![1]);
    assert_eq!(out[1].members, vec![0, 2]);
}

#[test]
fn plan_orders_by_layer_then_shader_then_effect_then_texture() {
    let keys = [
        k(1, ShaderKind::Sprite, TextureId(3), DrawEffect::none()),
        k(0, ShaderKind::Multiply, TextureId(1), DrawEffect::none()),
        k(0, ShaderKind::Sprite, TextureId(2), DrawEffect::tinted()),
        k(0, ShaderKind::Sprite, TextureId(9), DrawEffect::none()),
        k(0, ShaderKind::Sprite, TextureId(2), DrawEffect::none()),
        k(1, ShaderKind::Sprite, TextureId(3), DrawEffect::none()),
    ];
    let out = plan(&keys);
    let members: Vec<Vec<usize>> = out.iter().map(|b| b.members.clone()).collect();
    assert_eq!(members, vec![vec![4], vec![3], vec![2], vec![1], vec![0, 5]]);
    let mut sorted = keys.to_vec();
    sorted.sort();
    sorted.dedup();
    let got: Vec<SortKey> = out.iter().map(|b| b.key).collect();
    assert_eq!(got, sorted);
}
