use adventure::asset_id::AssetId;

#[test]
fn asset_id_is_deterministic() {
    let a = AssetId::from_path("bg/clearing");
    let b = AssetId::from_path("bg/clearing");
    assert_eq!(a, b);
}

#[test]
fn asset_id_is_path_sensitive() {
    let a = AssetId::from_path("bg/clearing");
    let b = AssetId::from_path("bg/clearing2");
    assert_ne!(a, b);
}

#[test]
fn asset_id_debug_format() {
    let id = AssetId::from_path("test");
    assert!(id.debug_string().starts_with("AssetId(0x"));
}

#[test]
fn asset_id_fnv1a_known_values() {
    // FNV-1a 64 of the empty string is the offset basis.
    assert_eq!(AssetId::from_path("").as_u64(), 0xcbf29ce484222325);
    // FNV-1a 64 of "a".
    assert_eq!(AssetId::from_path("a").as_u64(), 0xaf63dc4c8601ec8c);
}

#[test]
fn asset_id_display_is_prefixed_hex() {
    let id = AssetId::from_raw(0xff);
    assert_eq!(id.display_string(), "0x00000000000000ff");
    assert_eq!(id.debug_string(), "AssetId(0x00000000000000ff)");
    assert_eq!(AssetId::from_raw(42).as_u64(), 42);
}
