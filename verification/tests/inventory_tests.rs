use adventure::asset_id::AssetId;
use adventure::combine::{CombineRule, CombineTable, ItemCatalog, DEFAULT_FAIL_MESSAGE};
use adventure::inventory::{Inventory, InventoryError, Item, VerbKind};

fn rock() -> Item {
    Item::new("rock", "Rock", "A rock.")
}

fn coin() -> Item {
    let mut i = Item::new("coin", "Coin", "Shiny.");
    i.stackable = true;
    i.max_stack = 99;
    i
}

#[test]
fn labels_stable() {
    assert_eq!(VerbKind::Look.label(), "Look");
    assert_eq!(VerbKind::Pickup.label(), "Pickup");
    assert_eq!(VerbKind::UseOn.label(), "Use on");
}

#[test]
fn add_has_remove() {
    let mut inv = Inventory::new();
    inv.add(&rock()).unwrap();
    assert!(inv.has_any("rock"));
    assert_eq!(inv.count("rock"), 1);
    inv.remove_one("rock").unwrap();
    assert!(!inv.has_any("rock"));
    assert!(inv.is_empty());
}

#[test]
fn capacity_enforced() {
    let mut inv = Inventory::with_capacity(1);
    inv.add(&rock()).unwrap();
    let mut key = Item::new("key", "Key", "Key.");
    key.id = "key".into();
    assert!(matches!(inv.add(&key), Err(InventoryError::Full { capacity: 1 })));
}

#[test]
fn stackable_merges() {
    let mut inv = Inventory::new();
    let c = coin();
    inv.add_n(&c, 3).unwrap();
    inv.add_n(&c, 2).unwrap();
    assert_eq!(inv.len(), 1);
    assert_eq!(inv.count("coin"), 5);
    inv.remove("coin", 4).unwrap();
    assert_eq!(inv.count("coin"), 1);
}

#[test]
fn remove_not_enough() {
    let mut inv = Inventory::new();
    inv.add(&rock()).unwrap();
    assert!(matches!(inv.remove("rock", 2), Err(InventoryError::NotEnough { have: 1, need: 2, .. })));
}

#[test]
fn to_asset_ids_expands_stacks() {
    let mut inv = Inventory::new();
    inv.add_n(&coin(), 3).unwrap();
    let ids = inv.to_asset_ids();
    assert_eq!(ids.len(), 3);
    assert!(ids.iter().all(|a| *a == AssetId::from_path("items/coin")));
}

#[test]
fn add_then_remove_restores_counts() {
    let mut inv = Inventory::new();
    inv.add(&rock()).unwrap();
    inv.add_n(&coin(), 4).unwrap();
    let before_rock = inv.count("rock");
    inv.add_n(&coin(), 2).unwrap();
    assert_eq!(inv.count("coin"), 6);
    inv.remove("coin", 2).unwrap();
    assert_eq!(inv.count("coin"), 4);
    assert_eq!(inv.count("rock"), before_rock);
}

#[test]
fn look_always_has_text() {
    let i = Item::new("rock", "Rock", "A grey rock.");
    assert_eq!(i.look_text(), "A grey rock.");
    assert!(i.has_verb(VerbKind::Look));
}

#[test]
fn asset_id_stable() {
    let i = Item::new("key_cellar", "Key", "key");
    assert_eq!(i.asset_id(), AssetId::from_path("items/key_cellar"));
}

fn oil_lamp_table() -> (CombineTable, ItemCatalog, Inventory) {
    let oil = Item::new("oil", "Oil", "A flask of lamp oil.");
    let lamp = Item::new("lamp", "Lamp", "An empty oil lamp.");
    let lit = Item::new("lit_lamp", "Lit Lamp", "A warm, glowing lamp.");
    let catalog = ItemCatalog::new().with(oil.clone()).with(lamp.clone()).with(lit);
    let table = CombineTable::new().with_rule(CombineRule::recipe(
        "oil",
        "lamp",
        "lit_lamp",
        "You fill the lamp with oil and light it.",
    ));
    let mut inv = Inventory::new();
    inv.add(&oil).unwrap();
    inv.add(&lamp).unwrap();
    (table, catalog, inv)
}

#[test]
fn success_unordered() {
    let (table, catalog, mut inv) = oil_lamp_table();
    let r = table.apply(&mut inv, "lamp", "oil", &catalog).unwrap();
    assert!(r.is_success());
    assert!(!inv.has_any("oil"));
    assert!(!inv.has_any("lamp"));
    assert!(inv.has_any("lit_lamp"));
    assert_eq!(r.message(), "You fill the lamp with oil and light it.");
}

#[test]
fn fail_closed() {
    let (table, catalog, mut inv) = oil_lamp_table();
    inv.add_id("rock").unwrap();
    let r = table.apply(&mut inv, "rock", "oil", &catalog).unwrap();
    assert!(!r.is_success());
    assert_eq!(r.message(), DEFAULT_FAIL_MESSAGE);
    assert!(inv.has_any("rock"));
    assert!(inv.has_any("oil"));
}

#[test]
fn ordered_rule() {
    let table = CombineTable::new().with_rule(CombineRule {
        a: "key".into(),
        b: "lock".into(),
        result: None,
        consume_a: true,
        consume_b: false,
        message: "Unlocked.".into(),
        ordered: true,
        action: Some("unlock".into()),
    });
    assert!(table.find("key", "lock").is_some());
    assert!(table.find("lock", "key").is_none());
}

#[test]
fn missing_ingredient_errors() {
    let (table, catalog, mut inv) = oil_lamp_table();
    inv.remove_one("oil").unwrap();
    let err = table.apply(&mut inv, "oil", "lamp", &catalog).unwrap_err();
    assert!(matches!(err, InventoryError::NotEnough { .. }));
}
