use adventure::locomotion::{has_sprites, pad3, sprite_asset_path};
use adventure::locomotion::{
    ardy_play_mode_from_string, compass_letter_to_walk_key, hard_settle_timeout_ms, is_blocking_prop,
    is_from_idle, is_non_floor_prop, meta_action_token, require_visual_settle, resolve_aval_walk_for_letter,
    walk_ring_hops, walk_ring_index, walk_ring_key, walk_ring_keys, ArdyPlayMode, MetaAction, Verb,
};

#[test]
fn use_maps_pickup_when_takeable() {
    assert_eq!(Verb::Use.meta_action_for(true), MetaAction::PickUp);
    assert_eq!(Verb::Use.meta_action_for(false), MetaAction::Use);
}

#[test]
fn look_and_talk_fixed() {
    assert_eq!(Verb::Look.meta_action_for(true), MetaAction::Examine);
    assert_eq!(Verb::TalkTo.meta_action_for(false), MetaAction::Talk);
}

#[test]
fn verb_labels() {
    assert_eq!(Verb::Look.label(), "Look");
    assert_eq!(Verb::Use.label(), "Use");
    assert_eq!(Verb::TalkTo.label(), "Talk-to");
}

#[test]
fn tokens_match_dart() {
    assert_eq!(meta_action_token(MetaAction::PickUp), "pick_up");
    assert_eq!(meta_action_token(MetaAction::ReactHappy), "react_happy");
    assert_eq!(meta_action_token(MetaAction::Talk), "talk");
    assert_eq!(meta_action_token(MetaAction::Examine), "examine");
}

#[test]
fn play_mode_from_string() {
    assert_eq!(ardy_play_mode_from_string(Some("path")), ArdyPlayMode::Path);
    assert_eq!(ardy_play_mode_from_string(Some("skeleton")), ArdyPlayMode::Skeleton);
    assert_eq!(ardy_play_mode_from_string(Some("both")), ArdyPlayMode::Both);
    assert_eq!(ardy_play_mode_from_string(None), ArdyPlayMode::Both);
    assert_eq!(ardy_play_mode_from_string(Some("nonsense")), ArdyPlayMode::Both);
}

#[test]
fn ring_hops_same_and_adjacent() {
    assert_eq!(walk_ring_hops(Some("walk_east"), "walk_east"), 0);
    assert_eq!(walk_ring_hops(Some("east"), "east"), 0);
    assert_eq!(walk_ring_hops(Some("walk_east"), "walk_southeast"), 1);
    assert_eq!(walk_ring_hops(Some("walk_east"), "walk_northeast"), 1);
    // SE → NW: shortest is 4 hops either way.
    assert_eq!(walk_ring_hops(Some("walk_southeast"), "walk_northwest"), 4);
    // N → S: 4 hops.
    assert_eq!(walk_ring_hops(Some("walk_north"), "walk_south"), 4);
    // E → W: 4 hops.
    assert_eq!(walk_ring_hops(Some("walk_east"), "walk_west"), 4);
    // E → S: 2 hops.
    assert_eq!(walk_ring_hops(Some("walk_east"), "walk_south"), 2);
    // bare vs walk_ prefix.
    assert_eq!(walk_ring_hops(Some("southeast"), "walk_northwest"), 4);
}

#[test]
fn ring_hops_bare_prefix_mixed() {
    assert_eq!(walk_ring_hops(Some("east"), "walk_north"), 2);
}

#[test]
fn require_visual_on_multi_hop_not_from_idle() {
    assert!(require_visual_settle(Some("walk_southeast"), "walk_northwest"));
    assert!(!require_visual_settle(Some("idle"), "walk_northwest"));
    assert!(!require_visual_settle(None, "walk_east"));
    assert!(!require_visual_settle(Some("intro"), "walk_south"));
    // Same facing: 0 hops → soft.
    assert!(!require_visual_settle(Some("walk_east"), "walk_east"));
    // Adjacent 1 hop (E→SE): soft — hard-cut packs flip quickly.
    assert!(!require_visual_settle(Some("walk_east"), "walk_southeast"));
    // 2+ hops (E→S): hard settle.
    assert!(require_visual_settle(Some("walk_east"), "walk_south"));
}

#[test]
fn ring_hops_off_ring() {
    assert_eq!(walk_ring_hops(Some("sit"), "sit"), 0);
    assert_eq!(walk_ring_hops(Some("sit"), "walk_east"), 1);
    assert_eq!(walk_ring_hops(None, "walk_east"), 1);
}

#[test]
fn ring_hops_symmetric() {
    for a in walk_ring_keys() {
        for b in walk_ring_keys() {
            assert_eq!(walk_ring_hops(Some(a), b), walk_ring_hops(Some(b), a));
            assert!(walk_ring_hops(Some(a), b) <= 4);
        }
    }
}

#[test]
fn idle_detection() {
    assert!(is_from_idle(None));
    assert!(is_from_idle(Some("  idle ")));
    assert!(is_from_idle(Some("intro")));
    assert!(is_from_idle(Some("   ")));
    assert!(!is_from_idle(Some("walk_east")));
}

#[test]
fn settle_timeout_scales_with_hops() {
    assert_eq!(hard_settle_timeout_ms(0), 4000);
    assert_eq!(hard_settle_timeout_ms(2), 6400);
    assert_eq!(hard_settle_timeout_ms(4), 8800);
}

#[test]
fn ring_keys_and_index() {
    assert_eq!(walk_ring_key("walk_southeast"), "southeast");
    assert_eq!(walk_ring_key("southeast"), "southeast");
    assert_eq!(walk_ring_index("walk_north"), Some(0));
    assert_eq!(walk_ring_index("northwest"), Some(7));
    assert_eq!(walk_ring_index("walk"), None);
    assert_eq!(walk_ring_keys()[2], "east");
}

#[test]
fn compass_letters() {
    assert_eq!(compass_letter_to_walk_key("E"), "east");
    assert_eq!(compass_letter_to_walk_key(" nw "), "northwest");
    assert_eq!(compass_letter_to_walk_key("S"), "south");
    assert_eq!(compass_letter_to_walk_key("x"), "south");
}

#[test]
fn resolve_prefers_true_walk_then_mirror() {
    let full: Vec<String> = [
        "idle",
        "walk_east",
        "walk_west",
        "walk_north",
        "walk_south",
        "walk_northeast",
        "walk_northwest",
        "walk_southeast",
        "walk_southwest",
    ]
    .into_iter()
    .map(String::from)
    .collect();
    let e = resolve_aval_walk_for_letter("E", &full).unwrap();
    assert_eq!(e.state, "walk_east");
    assert!(!e.mirror);
    assert_eq!(e.letter, "E");
    assert_eq!(e.compass, "east");

    let only_west: Vec<String> = ["walk_west", "idle"].into_iter().map(String::from).collect();
    let mirror = resolve_aval_walk_for_letter("E", &only_west).unwrap();
    assert_eq!(mirror.state, "walk_west");
    assert!(mirror.mirror);

    let idle_only: Vec<String> = ["idle"].into_iter().map(String::from).collect();
    assert!(resolve_aval_walk_for_letter("E", &idle_only).is_none());
}

#[test]
fn prop_labels() {
    assert!(is_non_floor_prop("Window frame"));
    assert!(is_non_floor_prop("BOOKSHELF"));
    assert!(!is_non_floor_prop("Sofa"));
    assert!(is_blocking_prop("Old Sofa"));
    assert!(is_blocking_prop("coffee TABLE"));
    assert!(!is_blocking_prop("sofa cushion"));
    assert!(!is_blocking_prop("lamp"));
}

#[test]
fn motion_clip_defaults() {
    assert_eq!(adventure::locomotion::default_skeleton(), "core27");
    assert_eq!(adventure::locomotion::default_render(), "sticks");
    assert_eq!(adventure::locomotion::default_sprite_pattern(), "frame_{i:03d}.png");
    assert_eq!(adventure::locomotion::default_sprite_w(), 160);
    assert_eq!(adventure::locomotion::default_sprite_h(), 240);
}

#[test]
fn sprite_frame_paths() {
    assert_eq!(pad3(7), "007");
    assert_eq!(pad3(-1), "-01");
    assert_eq!(pad3(1234), "1234");
    assert_eq!(pad3(-123), "-123");
    assert_eq!(sprite_asset_path(None, "frame_{i:03d}.png", 7), "assets/scene/ardy_walk_sprites/frame_007.png");
    assert_eq!(sprite_asset_path(Some("sprites/walk"), "pose_{i:03d}.webp", 12), "sprites/walk/frame_012.png");
    assert_eq!(sprite_asset_path(Some("d"), "still.png", 3), "d/still.png");
    assert!(has_sprites("skinned_sprite", Some("d"), Some(4)));
    assert!(!has_sprites("sticks", Some("d"), Some(4)));
    assert!(!has_sprites("skinned_sprite", Some(""), Some(4)));
    assert!(!has_sprites("skinned_sprite", Some("d"), None));
    assert!(!has_sprites("skinned_sprite", None, Some(4)));
}
