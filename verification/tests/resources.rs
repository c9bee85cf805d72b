use factory_sim::content::{ContentDatabase, COPPER_BARS, COPPER_ORE, IRON_ORE, STONE};
use factory_sim::mining::{Deposit, MiningExtractor};
use factory_sim::resources::{Inventory, InventoryError};

#[test]
fn inventory_respects_capacity_and_reservations() {
    let content = ContentDatabase::starter();
    let mut inventory = Inventory::new(2, 2);
    assert_eq!(2, inventory.insert_up_to(&content, IRON_ORE, 3));
    assert_eq!(2, inventory.count(IRON_ORE));

    inventory.reserve(IRON_ORE, 4);
    assert_eq!(0, inventory.insert_up_to(&content, COPPER_ORE, 1));

    let mut target = Inventory::new(2, 2).with_reserved_capacity(IRON_ORE, 1);
    let moved = inventory.transfer_up_to(&content, &mut target, IRON_ORE, 3);
    assert_eq!(2, moved);
    assert_eq!(0, inventory.count(IRON_ORE));
    assert_eq!(2, target.count(IRON_ORE));
    assert_eq!(0, target.insert_up_to(&content, COPPER_BARS, 1));
}

#[test]
fn mining_depletes_a_finite_deposit_and_stops() {
    let content = ContentDatabase::starter();
    let mut extractor = MiningExtractor::for_item(&content, IRON_ORE, 4, 10);
    let mut stockpile = Inventory::new(1024, 1024);

    assert_eq!(4, extractor.advance(&content, &mut stockpile));
    assert_eq!(4, extractor.advance(&content, &mut stockpile));
    assert_eq!(2, extractor.advance(&content, &mut stockpile));
    assert_eq!(0, extractor.advance(&content, &mut stockpile));
    assert_eq!(Deposit::Finite(0), extractor.deposit);
    assert_eq!(10, stockpile.count(IRON_ORE));
}

#[test]
fn mining_manifest_items_create_from_nothing() {
    let content = ContentDatabase::starter();
    let mut extractor = MiningExtractor::for_item(&content, STONE, 2, 0);
    let mut stockpile = Inventory::new(3, 3);

    assert_eq!(Deposit::Manifest, extractor.deposit);
    assert_eq!(2, extractor.advance(&content, &mut stockpile));
    assert_eq!(1, extractor.advance(&content, &mut stockpile));
    assert_eq!(0, extractor.advance(&content, &mut stockpile));
    assert_eq!(3, stockpile.count(STONE));
}

#[test]
fn exact_operations_report_what_failed() {
    let content = ContentDatabase::starter();
    let mut inventory = Inventory::new(2, 2);
    assert_eq!(
        Err(InventoryError::CapacityExceeded { item: IRON_ORE, requested: 3, accepted: 2 }),
        inventory.insert_exact(&content, IRON_ORE, 3)
    );
    assert_eq!(
        Err(InventoryError::InsufficientQuantity { item: IRON_ORE, requested: 5, available: 2 }),
        inventory.remove_exact(IRON_ORE, 5)
    );
    let mut reserved = Inventory::new(10, 10).with_reserved_capacity(IRON_ORE, 5);
    assert_eq!(Err(InventoryError::ReservationBlocked(COPPER_ORE)), reserved.insert_exact(&content, COPPER_ORE, 1));
    assert_eq!(Ok(()), inventory.remove_exact(IRON_ORE, 2));
    assert!(inventory.is_empty());
}

#[test]
fn a_transfer_moves_units_without_creating_any() {
    let content = ContentDatabase::starter();
    let mut from = Inventory::new(100, 100);
    from.force_insert(COPPER_ORE, 7);
    let mut to = Inventory::new(4, 4);
    let moved = from.transfer_up_to(&content, &mut to, COPPER_ORE, 10);
    assert_eq!(4, moved);
    assert_eq!(7, from.count(COPPER_ORE) + to.count(COPPER_ORE));
}
