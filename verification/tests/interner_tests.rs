use adventure::interner::Interner;

#[test]
fn intern_dedupes() {
    let mut i = Interner::new();
    let a = i.intern("State.NPC.Bob.Met");
    let b = i.intern("State.NPC.Bob.Met");
    assert_eq!(a, b);
    assert_eq!(i.len(), 1);
}

#[test]
fn intern_distinct() {
    let mut i = Interner::new();
    let a = i.intern("foo");
    let b = i.intern("bar");
    assert_ne!(a, b);
    assert_eq!(i.len(), 2);
}

#[test]
fn resolve_roundtrip() {
    let mut i = Interner::new();
    let s = i.intern("hello");
    assert_eq!(i.resolve(s), Some("hello"));
}

#[test]
fn get_does_not_insert() {
    let mut i = Interner::new();
    assert_eq!(i.get("nope"), None);
    let _ = i.intern("yes");
    assert!(i.get("yes").is_some());
    assert_eq!(i.len(), 1);
}

#[test]
fn symbols_number_strings_in_first_intern_order() {
    let mut i = Interner::default();
    assert!(i.is_empty());
    let a = i.intern("a");
    let b = i.intern("b");
    let a2 = i.intern("a");
    assert_eq!(a.to_usize(), 0);
    assert_eq!(b.to_usize(), 1);
    assert_eq!(a2, a);
    assert_eq!(i.get("b"), Some(b));
    assert_eq!(i.resolve(b), Some("b"));
}
