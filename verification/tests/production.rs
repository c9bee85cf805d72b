use factory_sim::content::{ContentDatabase, ItemId, BUILDING_MATERIALS, IRON_BARS, IRON_ORE, STONE};
use factory_sim::production::{FactoryProduction, ProductionBlockReason, RecipeRuntime};
use factory_sim::resources::Inventory;

fn stocked_production(content: &ContentDatabase, output_item: ItemId, output_buffer: u32, capacity: u32) -> FactoryProduction {
    let item = content.item(output_item);
    let mut inventory = Inventory::new(capacity, capacity);
    for (input, quantity) in &item.ingredients {
        inventory.reserve(*input, *quantity);
        inventory.insert_exact(content, *input, *quantity).expect("test inventory holds the recipe inputs");
    }
    inventory.reserve(output_item, output_buffer);
    FactoryProduction::new(
        inventory,
        RecipeRuntime {
            inputs: item.ingredients.clone(),
            output_item,
            output_quantity: item.craft_output,
            craft_time: item.craft_time,
        },
        output_buffer,
    )
}

#[test]
fn craft_time_one_completes_on_the_start_tick() {
    let content = ContentDatabase::starter();
    let mut production = stocked_production(&content, IRON_BARS, 20, 500);
    let mut events = Vec::new();

    assert_eq!(10, production.advance(&content, &mut events));
    assert_eq!(0, production.inventory.count(IRON_ORE));
    assert_eq!(10, production.inventory.count(IRON_BARS));
    assert!(!production.crafting);
    assert_eq!(0, production.craft_progress);
}

#[test]
fn a_long_craft_counts_its_start_tick_as_progress() {
    let content = ContentDatabase::starter();
    let mut production = stocked_production(&content, BUILDING_MATERIALS, 20, 500);

    assert_eq!(0, production.advance(&content, &mut Vec::new()));
    assert!(production.crafting);
    assert_eq!(1, production.craft_progress);
}

#[test]
fn a_full_output_buffer_preserves_recipe_inputs() {
    let content = ContentDatabase::starter();
    let mut production = stocked_production(&content, IRON_BARS, 20, 500);
    production.inventory.force_insert(IRON_BARS, 20);
    assert_eq!(0, production.advance(&content, &mut Vec::new()));
    assert_eq!(3, production.inventory.count(IRON_ORE));
    assert!(!production.crafting);
    assert_eq!(Some(ProductionBlockReason::OutputFull), production.blocked);
}

#[test]
fn insufficient_output_space_preserves_recipe_inputs() {
    let content = ContentDatabase::starter();
    let mut production = stocked_production(&content, BUILDING_MATERIALS, 20, 8);
    assert_eq!(0, production.advance(&content, &mut Vec::new()));
    assert_eq!(4, production.inventory.count(IRON_BARS));
    assert_eq!(4, production.inventory.count(STONE));
    assert!(!production.crafting);
    assert_eq!(Some(ProductionBlockReason::NoOutputSpace), production.blocked);
}

#[test]
fn a_long_craft_completes_after_its_craft_time() {
    let content = ContentDatabase::starter();
    let mut production = stocked_production(&content, BUILDING_MATERIALS, 20, 500);
    let mut produced = 0;
    for _ in 0..5 {
        produced += production.advance(&content, &mut Vec::new());
    }
    assert_eq!(1, produced);
    assert_eq!(1, production.inventory.count(BUILDING_MATERIALS));
    assert!(!production.crafting);
}
