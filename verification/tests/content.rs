use factory_sim::content::{
    ContentDatabase, GridPoint, ItemId, BUILDING_MATERIALS, CIRCUITS, COAL, COAL_PLANT, COPPER_BARS, COPPER_ORE,
    FACTORY_BUILDING, FOUR_CORNERS_WORKS_SCENARIO, FRAMES, HYBRID_GRID_SCENARIO, IRON_BARS, IRON_ORE,
    LEGACY_ASSEMBLY_YARD_SCENARIO, MINING_DRILL, MOTORS, STONE, STORAGE_WAREHOUSE, TWIN_PLANT_BASIN_SCENARIO,
    V2_WORLD_SCENARIO,
};
use std::collections::BTreeSet;

#[test]
fn starter_catalog_matches_the_active_unity_item_set() {
    let content = ContentDatabase::starter();

    assert_eq!(
        vec![
            BUILDING_MATERIALS,
            CIRCUITS,
            COAL,
            COAL_PLANT,
            COPPER_BARS,
            COPPER_ORE,
            FACTORY_BUILDING,
            FRAMES,
            IRON_BARS,
            IRON_ORE,
            MINING_DRILL,
            MOTORS,
            STONE,
            STORAGE_WAREHOUSE,
        ],
        content.items.iter().map(|item| item.id).collect::<Vec<_>>()
    );
}

#[test]
fn starter_catalog_preserves_unity_recipes_and_flags() {
    let content = ContentDatabase::starter();

    assert_eq!(vec![(IRON_ORE, 3)], content.item(IRON_BARS).ingredients);
    assert_eq!(10, content.item(IRON_BARS).craft_output);
    assert_eq!(vec![(COPPER_ORE, 3)], content.item(COPPER_BARS).ingredients);
    assert_eq!(10, content.item(COPPER_BARS).craft_output);
    assert_eq!(vec![(IRON_BARS, 4), (STONE, 4)], content.item(BUILDING_MATERIALS).ingredients);
    assert_eq!(vec![(COPPER_BARS, 2), (IRON_BARS, 2)], content.item(MOTORS).ingredients);
    assert_eq!(vec![(COPPER_BARS, 1)], content.item(CIRCUITS).ingredients);
    assert_eq!(vec![(IRON_BARS, 4)], content.item(FRAMES).ingredients);
    assert_eq!(vec![(FRAMES, 4), (MOTORS, 1)], content.item(MINING_DRILL).ingredients);
    assert!(content.item(STONE).create_from_nothing);
    for spawnable in [STORAGE_WAREHOUSE, COAL_PLANT, FACTORY_BUILDING, MINING_DRILL] {
        assert!(content.item(spawnable).can_spawn_game_object);
    }
}

#[test]
fn starter_catalog_preserves_unity_physical_and_timing_values() {
    let content = ContentDatabase::starter();

    let building_materials = content.item(BUILDING_MATERIALS);
    assert_eq!(
        (20, 5, 20, 5),
        (building_materials.weight, building_materials.volume, building_materials.stack_size, building_materials.craft_time)
    );
    for resource in [IRON_ORE, COPPER_ORE, COAL, STONE] {
        assert_eq!(1, content.item(resource).craft_time);
    }
    for bars in [IRON_BARS, COPPER_BARS] {
        assert_eq!(1, content.item(bars).craft_time);
    }
    let frames = content.item(FRAMES);
    assert_eq!((10, 10, 20, 5), (frames.weight, frames.volume, frames.stack_size, frames.craft_time));
    for building in [STORAGE_WAREHOUSE, COAL_PLANT, FACTORY_BUILDING] {
        let definition = content.item(building);
        assert_eq!(
            (400, 200, 1, 40),
            (definition.weight, definition.volume, definition.stack_size, definition.craft_time)
        );
    }
    let mining_drill = content.item(MINING_DRILL);
    assert_eq!(
        (50, 1, 1, 5),
        (mining_drill.weight, mining_drill.volume, mining_drill.stack_size, mining_drill.craft_time)
    );
}

#[test]
fn hybrid_grid_pairs_fueled_and_fuel_free_generators() {
    let content = ContentDatabase::starter();
    let scenario = content.scenario(HYBRID_GRID_SCENARIO);
    let power = scenario.power.as_ref().expect("hybrid scenario is powered");

    assert_eq!(2, power.generators.len());
    assert_eq!(2, scenario.layout.generator_positions.len());
    assert_eq!(Some(COAL), power.generators[0].fuel_item);
    assert_eq!(None, power.generators[1].fuel_item);
    assert_eq!(0, power.generators[1].burn_rate);
    assert!(power.generators[1].gain_rate > 0);
}

#[test]
fn v2_world_recreates_the_large_generated_map_and_central_district() {
    let content = ContentDatabase::starter();
    let scenario = content.scenario(V2_WORLD_SCENARIO);

    assert_eq!((50, 50), (scenario.layout.width, scenario.layout.height));
    assert_eq!(424, scenario.sources.len());
    assert_eq!(423, scenario.sources.iter().filter(|source| source.item != STONE).count());
    for item in [IRON_ORE, COPPER_ORE, COAL] {
        assert_eq!(141, scenario.sources.iter().filter(|source| source.item == item).count());
    }
    assert_eq!(
        scenario.layout.source_positions.len(),
        scenario.layout.source_positions.iter().copied().collect::<BTreeSet<_>>().len()
    );
    assert_eq!(15, scenario.factories.len());
    assert_eq!(15, scenario.hauler_count);
    assert_eq!(15, scenario.layout.hauler_positions.len());
    assert_eq!(4, scenario.radars.len());
    assert_eq!(IRON_ORE, scenario.radars[0].target_item);
    assert_eq!(COPPER_ORE, scenario.radars[1].target_item);
    assert_eq!(COAL, scenario.radars[2].target_item);
    assert_eq!(COAL, scenario.radars[3].target_item);
    assert!(scenario.radars[..3].iter().all(|radar| radar.deployment_item == MINING_DRILL));
    assert_eq!(COAL_PLANT, scenario.radars[3].deployment_item);
    assert_eq!(Some(COAL_PLANT), scenario.power.as_ref().unwrap().generators[0].item);
    let drills = scenario.factories[9]
        .starting_items
        .iter()
        .find(|(item, _)| *item == MINING_DRILL)
        .map(|(_, quantity)| *quantity);
    assert_eq!(Some(10), drills);
    assert_eq!(GridPoint { x: 27, y: 27 }, scenario.layout.generator_positions[0]);
    assert_eq!(GridPoint { x: 31, y: 25 }, scenario.layout.source_positions[423]);
    assert_eq!(scenario, ContentDatabase::starter().scenario(V2_WORLD_SCENARIO));
}

#[test]
fn selectable_worlds_are_distinct_authored_50x50_layouts() {
    let content = ContentDatabase::starter();
    let world_ids = [V2_WORLD_SCENARIO, LEGACY_ASSEMBLY_YARD_SCENARIO, TWIN_PLANT_BASIN_SCENARIO, FOUR_CORNERS_WORKS_SCENARIO];
    let names = world_ids.iter().map(|id| content.scenario(*id).name.as_str()).collect::<BTreeSet<_>>();

    assert_eq!(world_ids.len(), names.len());
    for id in world_ids {
        let scenario = content.scenario(id);
        assert_eq!((50, 50), (scenario.layout.width, scenario.layout.height));
        assert_eq!(scenario.sources.len(), scenario.layout.source_positions.len());
        assert_eq!(scenario.factories.len(), scenario.layout.factory_positions.len());
        assert_eq!(usize::try_from(scenario.hauler_count).unwrap(), scenario.layout.hauler_positions.len());
    }
}

#[test]
fn item_names_read_back_to_their_items() {
    for item in [IRON_ORE, COAL_PLANT, STORAGE_WAREHOUSE, STONE] {
        assert_eq!(Some(item), ItemId::new(item.as_str()));
    }
    assert_eq!("iron_ore", IRON_ORE.as_str());
    assert_eq!(None, ItemId::new("unobtanium"));
}
