use factory_sim::a11y::{describe_cell, remember, world_lines, LOG_LIMIT};
use factory_sim::{CompactGame, CompactRecipe, CompactSnapshot, GridPosition};

fn snapshot_with_road() -> CompactSnapshot {
    let mut game = CompactGame::new();
    game.place_road(GridPosition { x: 7, y: 8 }).expect("road");
    game.snapshot()
}

#[test]
fn a_cell_describes_its_contents_and_its_frontage() {
    let snapshot = snapshot_with_road();
    let warehouse = describe_cell(&snapshot, snapshot.warehouse_position);
    assert!(warehouse.contains("the warehouse"));

    let road = describe_cell(&snapshot, GridPosition { x: 7, y: 8 });
    assert!(road.contains("is road"));

    let beside_road = describe_cell(&snapshot, GridPosition { x: 6, y: 8 });
    assert!(beside_road.contains("is empty"));
    assert!(beside_road.contains("has road frontage"));

    let far = describe_cell(&snapshot, GridPosition { x: 0, y: 0 });
    assert!(far.contains("has no road frontage"));

    let outside = describe_cell(&snapshot, GridPosition { x: 99, y: 99 });
    assert!(outside.contains("outside the world"));
}

#[test]
fn a_deposit_and_a_factory_report_their_own_state() {
    let mut game = CompactGame::new();
    game.place_road(GridPosition { x: 7, y: 8 }).expect("road");
    let building = game.place_building(GridPosition { x: 6, y: 8 }).expect("building");
    game.configure_building(building, CompactRecipe::IronBars).expect("recipe");
    let snapshot = game.snapshot();

    let factory = describe_cell(&snapshot, GridPosition { x: 6, y: 8 });
    assert!(factory.contains("factory 0 making Iron bars"));

    let deposit_cell = snapshot.deposits[0].position;
    let deposit = describe_cell(&snapshot, deposit_cell);
    assert!(deposit.contains("deposit"));
    assert!(deposit.contains("left in the ground"));

    let lines = world_lines(&snapshot);
    assert!(lines[0].contains("World 16x16"));
    assert!(lines.iter().any(|line| line.contains("Factory 0 at 6,8")));
    assert!(lines.iter().any(|line| line.contains("Warehouse is empty")));
}

#[test]
fn the_event_log_keeps_the_recent_past_and_drops_the_oldest() {
    let mut log = Vec::new();
    remember(&mut log, &["first".to_string()]);
    remember(&mut log, &[]);
    assert_eq!(vec!["first".to_string()], log, "a quiet tick keeps the past");

    let many: Vec<String> = (0..LOG_LIMIT).map(|n| format!("event {n}")).collect();
    remember(&mut log, &many);
    assert_eq!(LOG_LIMIT, log.len());
    assert_eq!("event 0", log[0]);
    assert_eq!(format!("event {}", LOG_LIMIT - 1), log[LOG_LIMIT - 1]);
}

#[test]
fn cell_descriptions_are_whole_sentences() {
    let snapshot = snapshot_with_road();
    assert_eq!("Cell 7,8 is road. It has road frontage.", describe_cell(&snapshot, GridPosition { x: 7, y: 8 }));
    assert_eq!(
        "Cell 2,2 is a iron_ore deposit, 600 left in the ground and 0 mined. It has no road frontage.",
        describe_cell(&snapshot, GridPosition { x: 2, y: 2 })
    );
    assert_eq!("Cell -1,3 is outside the world.", describe_cell(&snapshot, GridPosition { x: -1, y: 3 }));
    let lines = world_lines(&snapshot);
    assert_eq!("World 16x16, warehouse at 8,8.", lines[0]);
    assert_eq!("Deposit iron_ore at 2,2: 600 left, 0 mined and waiting.", lines[1]);
    assert_eq!(6, lines.len());
}
