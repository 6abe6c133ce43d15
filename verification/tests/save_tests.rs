use adventure::save::{
    current_custom_versions, guid_audio, guid_inventory, guid_tags, migrate, needs_any_migration,
    parse_container, saves_dir, slot_path, CustomVersionGuid, DefaultValue, Loader, SaveError,
    SaveHeaderInfo, Saver, VersionList, CONTAINER_VERSION, ENGINE_SEMVER, SAVE_MAGIC, SCHEMA_NAME,
};

fn header(schema: &str, semver: (u16, u16, u16), versions: VersionList) -> SaveHeaderInfo {
    SaveHeaderInfo {
        magic: SAVE_MAGIC,
        engine_semver: semver,
        schema_name: schema.to_string(),
        custom_versions: versions,
    }
}

#[test]
fn roundtrip_in_memory() {
    let saver = Saver::new();
    let head = b"header-bytes".to_vec();
    let body = b"body-bytes-longer".to_vec();
    let bytes = saver.save(&head, &body);
    assert!(bytes.len() > 40);
    assert_eq!(&bytes[0..4], &SAVE_MAGIC.to_le_bytes());
    assert_eq!(&bytes[4..8], &CONTAINER_VERSION.to_le_bytes());
    let c = Loader::new().open(&bytes).unwrap();
    assert_eq!(c.header, head);
    assert_eq!(c.body, body);
    assert!(c.thumbnail_png.is_none());
    // The header fields the saver stamps pass the loader's header check.
    let info = saver.header_info();
    assert_eq!(info.magic, SAVE_MAGIC);
    assert_eq!(info.schema_name.as_str(), SCHEMA_NAME);
    assert_eq!(info.engine_semver, ENGINE_SEMVER);
    assert!(!needs_any_migration(&info));
    assert!(Loader::new().check_header(&info).is_ok());
}

#[test]
fn roundtrip_with_thumb() {
    let saver = Saver::new();
    let png = b"\x89PNG\r\n\x1a\nfake";
    let bytes = saver.save_with_thumb(b"h", b"b", Some(&png[..]));
    let c = Loader::new().open(&bytes).unwrap();
    assert_eq!(c.thumbnail_png.as_deref(), Some(png.as_slice()));
    assert_eq!(c.header, b"h".to_vec());
}

#[test]
fn detects_bad_magic() {
    let mut bytes = Saver::new().save(b"h", b"b");
    bytes[0] = 0;
    match parse_container(&bytes) {
        Err(SaveError::Corrupted) | Err(SaveError::BadMagic(_)) => {}
        other => panic!("expected corruption or bad magic, got {other:?}"),
    }
}

#[test]
fn detects_sha1_tamper() {
    let mut bytes = Saver::new().save(b"header", b"body");
    let last = bytes.len() - 1;
    bytes[last] ^= 0xff;
    assert!(matches!(Loader::new().open(&bytes), Err(SaveError::Corrupted)));
}

#[test]
fn truncated_input_is_truncated() {
    assert!(matches!(parse_container(&[0u8; 39]), Err(SaveError::Truncated)));
    assert!(matches!(parse_container(&[]), Err(SaveError::Truncated)));
}

#[test]
fn sha1_footer_is_sha1_of_payload() {
    // Five 4-byte words of payload for empty sections, then the 20-byte SHA-1.
    let bytes = Saver::new().save(b"", b"");
    assert_eq!(bytes.len(), 20 + 20);
    let c = parse_container(&bytes).unwrap();
    assert!(c.header.is_empty() && c.body.is_empty());
    // Changing any payload byte is detected.
    let mut t = bytes.clone();
    t[10] ^= 1;
    assert!(matches!(parse_container(&t), Err(SaveError::Corrupted)));
}

#[test]
fn schema_mismatch() {
    let h = header("old-schema", ENGINE_SEMVER, current_custom_versions());
    match Loader::new().check_header(&h) {
        Err(SaveError::SchemaMismatch { file, engine }) => {
            assert_eq!(file, "old-schema");
            assert_eq!(engine, SCHEMA_NAME);
        }
        other => panic!("expected schema mismatch, got {other:?}"),
    }
}

#[test]
fn engine_too_new_and_bad_magic_header() {
    let h = header(SCHEMA_NAME, (1, 0, 0), current_custom_versions());
    assert!(matches!(
        Loader::new().check_header(&h),
        Err(SaveError::EngineTooNew { file: (1, 0, 0), engine: (0, 1, 0) })
    ));
    let mut h = header(SCHEMA_NAME, ENGINE_SEMVER, current_custom_versions());
    assert!(Loader::new().check_header(&h).is_ok());
    h.magic = 7;
    assert!(matches!(Loader::new().check_header(&h), Err(SaveError::BadMagic(7))));
}

#[test]
fn custom_version_lookup() {
    let h = header(SCHEMA_NAME, ENGINE_SEMVER, current_custom_versions());
    assert_eq!(h.custom_version_of(guid_tags()), 1);
    assert_eq!(h.custom_version_of(guid_audio()), 1);
    assert_eq!(h.custom_version_of(CustomVersionGuid([0; 16])), 0);
}

#[test]
fn guid_hex_is_lowercase() {
    assert_eq!(guid_tags().hex(), format!("54414753{}", "5f".repeat(12)));
    assert_eq!(guid_inventory().0, *b"INVENTORY_______");
}

#[test]
fn migration_decisions() {
    let current = header(SCHEMA_NAME, ENGINE_SEMVER, current_custom_versions());
    assert!(!needs_any_migration(&current));
    let old = header(SCHEMA_NAME, ENGINE_SEMVER, VersionList::from_pairs(&vec![(guid_tags(), 1)]));
    assert!(needs_any_migration(&old));
    let keys = vec!["tags".to_string(), "vars".to_string()];
    let defaults = migrate(&old, Some(&keys)).unwrap();
    let names: Vec<&str> = defaults.iter().map(|d| d.key.as_str()).collect();
    assert_eq!(names, vec!["inventory", "visited_rooms", "dialog_history", "bus_volumes"]);
    assert_eq!(defaults[3].value, DefaultValue::UnitVolumes);
    assert_eq!(defaults[0].value, DefaultValue::EmptyList);
    assert!(migrate(&old, None).unwrap().is_empty());
    let ancient = header(SCHEMA_NAME, ENGINE_SEMVER, VersionList::from_pairs(&vec![]));
    match migrate(&ancient, None) {
        Err(SaveError::MigrationFailed { subsystem, from, to, reason }) => {
            assert_eq!(subsystem, guid_tags().hex());
            assert_eq!(from, 0);
            assert_eq!(to, 1);
            assert_eq!(reason, "tags version 0 is unsupported");
        }
        other => panic!("expected migration failure, got {other:?}"),
    }
}

#[test]
fn saver_stamps() {
    let s = Saver::new().with_content_version(7).with_engine_semver((0, 2, 0));
    assert_eq!(s.content_version(), 7);
    assert_eq!(s.engine_semver(), (0, 2, 0));
    assert_eq!(s.custom_versions().to_pairs().len(), 6);
}

#[test]
fn slot_paths() {
    assert_eq!(saves_dir("/tmp/game"), "/tmp/game/saves");
    assert_eq!(saves_dir("/tmp/game/"), "/tmp/game/saves");
    assert_eq!(slot_path("root", "slot1"), "root/saves/slot1.bin");
}
