use adventure::input::MouseButton;
use adventure::pick::{pick, pick_topmost, Dispatcher, HotspotCursor, PointerStep};

fn ids(v: &[&str]) -> Vec<String> {
    v.iter().map(|s| s.to_string()).collect()
}

fn hotspot(id: &str, cursor: Option<&str>) -> HotspotCursor {
    HotspotCursor { id: id.to_string(), cursor: cursor.map(|c| c.to_string()) }
}

#[test]
fn pick_empty_returns_empty() {
    let hits = pick(&Vec::new(), &Vec::new());
    assert!(hits.is_empty());
}

#[test]
fn pick_hits_inside() {
    // Square (0,0)-(1,1), pointer at (0.5, 0.5): inside.
    let hits = pick(&ids(&["a"]), &vec![true]);
    assert_eq!(hits.len(), 1);
    assert_eq!(hits[0].id, "a");
}

#[test]
fn pick_misses_outside() {
    // Square (0,0)-(0.5,0.5), pointer at (0.9, 0.9): outside.
    assert!(pick(&ids(&["a"]), &vec![false]).is_empty());
}

#[test]
fn pick_topmost_orders_by_authoring_index() {
    // Two identical squares under the pointer: the later-authored one wins.
    let top = pick_topmost(&ids(&["first", "second"]), &vec![true, true]).unwrap();
    assert_eq!(top.id, "second");
}

#[test]
fn pick_orders_topmost_first_with_layers() {
    let hits = pick(&ids(&["a", "b", "c", "d"]), &vec![true, false, true, true]);
    let got: Vec<(&str, i32)> = hits.iter().map(|h| (h.id.as_str(), h.layer)).collect();
    assert_eq!(got, vec![("d", 3), ("c", 2), ("a", 0)]);
    assert!(pick_topmost(&ids(&["a", "b"]), &vec![false, false]).is_none());
    assert_eq!(pick_topmost(&ids(&["a", "b", "c"]), &vec![true, true, false]).unwrap().layer, 1);
}

#[test]
fn empty_flush_is_no_op() {
    let mut d = Dispatcher::new();
    let outcome = d.flush(&Vec::new(), &Vec::new());
    assert!(outcome.hovered_hotspot.is_none());
    assert_eq!(outcome.cursor, "default");
    assert!(outcome.clicks.is_empty());
}

#[test]
fn hover_enters_and_leaves_hotspot() {
    let mut d = Dispatcher::new();
    let hs = vec![hotspot("door", None)];
    let outcome = d.flush(&hs, &vec![PointerStep::Move { hit: Some(0) }]);
    assert_eq!(outcome.hovered_hotspot.as_deref(), Some("door"));
    assert_eq!(d.hovered(), Some("door"));
    let outcome = d.flush(&hs, &vec![PointerStep::Move { hit: None }]);
    assert!(outcome.hovered_hotspot.is_none());
    assert_eq!(d.hovered(), None);
}

#[test]
fn click_inside_hotspot_records_click() {
    let mut d = Dispatcher::new();
    let hs = vec![hotspot("door", None)];
    let outcome = d.flush(&hs, &vec![PointerStep::Down { button: MouseButton::Left, hit: Some(0) }]);
    assert_eq!(outcome.clicks.len(), 1);
    assert_eq!(outcome.clicks[0].0, MouseButton::Left);
    assert_eq!(outcome.clicks[0].1.as_str(), "door");
}

#[test]
fn click_outside_hotspot_records_nothing() {
    let mut d = Dispatcher::new();
    let hs = vec![hotspot("door", None)];
    let outcome = d.flush(&hs, &vec![PointerStep::Down { button: MouseButton::Left, hit: None }]);
    assert!(outcome.clicks.is_empty());
}

#[test]
fn cursor_adapts_to_hotspot_named_cursor() {
    let mut d = Dispatcher::new();
    let hs = vec![hotspot("door", Some("walk"))];
    let outcome = d.flush(&hs, &vec![PointerStep::Move { hit: Some(0) }]);
    assert_eq!(outcome.cursor.as_str(), "walk");
}

#[test]
fn cursor_persists_and_follows_first_hotspot_with_id() {
    let mut d = Dispatcher::new();
    let hs = vec![hotspot("door", Some("use")), hotspot("door", Some("look")), hotspot("rug", None)];
    // The cursor comes from the first hotspot carrying the hit's id.
    let o = d.flush(&hs, &vec![PointerStep::Move { hit: Some(1) }, PointerStep::Other]);
    assert_eq!(o.cursor, "use");
    // No move: the cursor stays, the hover is kept, clicks still count.
    let o = d.flush(&hs, &vec![PointerStep::Down { button: MouseButton::Right, hit: Some(2) }]);
    assert_eq!(o.cursor, "use");
    assert!(o.hovered_hotspot.is_none());
    assert_eq!(d.hovered(), Some("door"));
    assert_eq!(o.clicks, vec![(MouseButton::Right, "rug".to_string())]);
    let o = d.flush(&hs, &vec![PointerStep::Move { hit: Some(2) }]);
    assert_eq!(o.cursor, "default");
}
