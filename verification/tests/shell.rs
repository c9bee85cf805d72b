use factory_sim::player::compact_scenario_name;
use factory_sim::shell::{
    apply_control, inspect_cell, restore_or_start, selected_building_text, ControlAction, SimHost, ToolMode,
    MAX_ZOOM_LEVEL, MIN_ZOOM_LEVEL,
};
use factory_sim::{CompactGame, CompactRecipe, CompactSaveError, GridPosition};

fn new_host() -> SimHost {
    SimHost::start(CompactGame::new(), "Draw a road from the warehouse apron toward a deposit.".to_string())
}

#[test]
fn player_shell_starts_paused_on_the_only_player_facing_world() {
    let host = new_host();

    assert!(host.paused);
    assert_eq!(compact_scenario_name(), host.snapshot.name);
    assert_eq!((16, 16), (host.snapshot.width, host.snapshot.height));
    assert!(host.snapshot.buildings.is_empty());
}

#[test]
fn placement_and_recipe_controls_mutate_authoritative_state() {
    let mut host = new_host();
    host.tool = ToolMode::Building;
    host.edit_cell(GridPosition { x: 7, y: 10 });

    let selected = host.selected_building.expect("placed factory is selected");
    host.configure_selected(CompactRecipe::IronBars);
    assert_eq!(
        Some(CompactRecipe::IronBars),
        host.snapshot
            .buildings
            .iter()
            .find(|building| building.id == selected)
            .and_then(|building| building.recipe)
    );
}

#[test]
fn controls_use_literal_double_slash_separators() {
    let host = new_host();
    assert!(selected_building_text(&host).contains(" // "));
    assert!(inspect_cell(&host.snapshot, host.snapshot.warehouse_position).contains(" // "));
}

#[test]
fn a_placed_factory_is_announced_and_inspected() {
    let mut host = new_host();
    host.tool = ToolMode::Building;
    host.edit_cell(GridPosition { x: 7, y: 10 });
    assert_eq!("Factory 0 placed. Choose its recipe.", host.feedback);
    assert_eq!(ToolMode::Inspect, host.tool);
    assert_eq!("SELECTED // FACTORY 0 // CHOOSE RECIPE", selected_building_text(&host));

    host.configure_selected(CompactRecipe::IronBars);
    assert_eq!("Factory 0 now makes Iron bars.", host.feedback);
    assert_eq!(
        "Factory 0 // Iron bars // input 0 // output 0",
        inspect_cell(&host.snapshot, GridPosition { x: 7, y: 10 })
    );
}

#[test]
fn the_inspector_names_the_warehouse_roads_and_empty_cells() {
    let mut host = new_host();
    assert_eq!(
        "Warehouse // demand 4 // sold 0 // revenue $0",
        inspect_cell(&host.snapshot, host.snapshot.warehouse_position)
    );
    assert_eq!("Empty cell.", inspect_cell(&host.snapshot, GridPosition { x: 0, y: 15 }));
    assert_eq!(
        "copper ore deposit // stock 0 // remaining 600",
        inspect_cell(&host.snapshot, GridPosition { x: 13, y: 3 })
    );

    host.tool = ToolMode::Road;
    host.edit_cell(GridPosition { x: 0, y: 15 });
    assert_eq!("Road // free // shared capacity", inspect_cell(&host.snapshot, GridPosition { x: 0, y: 15 }));
    host.edit_cell(GridPosition { x: 0, y: 15 });
    assert_eq!("Road already exists here.", host.feedback);
    host.edit_cell(GridPosition { x: 16, y: 0 });
    assert_eq!("cell 16,0 is outside the compact world", host.feedback);

    host.tool = ToolMode::Erase;
    host.edit_cell(GridPosition { x: 0, y: 15 });
    assert_eq!("Empty cell.", inspect_cell(&host.snapshot, GridPosition { x: 0, y: 15 }));
    host.edit_cell(GridPosition { x: 0, y: 15 });
    assert_eq!("There is no road here.", host.feedback);
}

#[test]
fn a_recipe_needs_a_selected_factory() {
    let mut host = new_host();
    host.configure_selected(CompactRecipe::IronBars);
    assert_eq!("Select a factory before assigning a recipe.", host.feedback);
    assert_eq!("SELECTED // NONE", selected_building_text(&host));
}

#[test]
fn controls_switch_tools_pause_speed_and_zoom_within_bounds() {
    let mut host = new_host();
    let mut zoom = MAX_ZOOM_LEVEL;

    apply_control(ControlAction::SetTool(ToolMode::Road), &mut host, &mut zoom);
    assert_eq!(ToolMode::Road, host.tool);
    assert_eq!("DRAW ROAD mode.", host.feedback);

    apply_control(ControlAction::TogglePause, &mut host, &mut zoom);
    assert!(!host.paused);
    assert_eq!("Simulation running. Trucks dispatch automatically.", host.feedback);

    apply_control(ControlAction::Step, &mut host, &mut zoom);
    assert!(host.paused);
    assert_eq!(1, host.snapshot.tick);

    apply_control(ControlAction::ToggleSpeed, &mut host, &mut zoom);
    assert!(host.fast);
    assert_eq!("Simulation speed 4x.", host.feedback);

    apply_control(ControlAction::ZoomOut, &mut host, &mut zoom);
    assert_eq!(MAX_ZOOM_LEVEL, zoom);
    for _ in 0..20 {
        apply_control(ControlAction::ZoomIn, &mut host, &mut zoom);
    }
    assert_eq!(MIN_ZOOM_LEVEL, zoom);

    apply_control(ControlAction::Reset, &mut host, &mut zoom);
    assert_eq!(MAX_ZOOM_LEVEL, zoom);
    assert_eq!(0, host.snapshot.tick);
    assert_eq!(ToolMode::Inspect, host.tool);
    assert_eq!("World reset. Draw a road from the warehouse apron.", host.feedback);
    assert_eq!(host.snapshot_revision, host.saved_revision);
}

#[test]
fn a_session_starts_from_the_save_slot_or_fresh() {
    let (game, feedback) = restore_or_start(None);
    assert_eq!("Draw a road from the warehouse apron toward a deposit.", feedback);
    assert_eq!(0, game.counters().0);

    let (_, feedback) = restore_or_start(Some(Err(CompactSaveError::UnsupportedVersion { found: 9999, supported: 1 })));
    assert_eq!(
        "Could not read the saved session (save format version 9999 is not supported (1)). Started fresh.",
        feedback
    );

    let mut played = CompactGame::new();
    played.place_road(GridPosition { x: 7, y: 8 }).expect("road");
    played.step();
    let (game, feedback) = restore_or_start(Some(Ok(played)));
    assert_eq!("Restored your last session.", feedback);
    assert_eq!(1, game.counters().0);
}
