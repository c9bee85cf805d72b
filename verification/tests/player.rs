use factory_sim::content::{IRON_BARS, IRON_ORE};
use factory_sim::play::{apply, PlayRequest};
use factory_sim::player::total_item;
use factory_sim::{CompactEditError, CompactGame, CompactRecipe, CompactSaveError, CompactTruckTask, GridPosition};

fn road_line(game: &mut CompactGame, points: impl IntoIterator<Item = GridPosition>) {
    for point in points {
        game.place_road(point).expect("test road is valid");
    }
}

fn trunk_road(game: &mut CompactGame) {
    road_line(
        game,
        (2..=9)
            .map(|y| GridPosition { x: 7, y })
            .chain((3..=7).map(|x| GridPosition { x, y: 2 }))
            .chain([GridPosition { x: 2, y: 3 }]),
    );
}

#[test]
fn compact_world_starts_as_a_bounded_planning_problem() {
    let mut game = CompactGame::new();
    let snapshot = game.snapshot();

    assert_eq!((16, 16), (snapshot.width, snapshot.height));
    assert_eq!(4, snapshot.deposits.len());
    assert_eq!(snapshot.warehouse_position, CompactGame::warehouse_position());
    assert_eq!(0, snapshot.buildings.len());
    assert_eq!((0, 2), (snapshot.allowance.used, snapshot.allowance.limit));
    assert_eq!(Some(20), snapshot.allowance.next_unlock_at_sales);
}

#[test]
fn roads_are_free_edits_but_cannot_overwrite_world_objects() {
    let mut game = CompactGame::new();
    let road = GridPosition { x: 8, y: 10 };

    assert_eq!(Ok(true), game.place_road(road));
    assert_eq!(Ok(false), game.place_road(road));
    assert_eq!(Ok(true), game.remove_road(road));
    assert_eq!(
        Err(CompactEditError::CellOccupied(CompactGame::warehouse_position())),
        game.place_road(CompactGame::warehouse_position())
    );
}

#[test]
fn building_placement_requires_frontage_and_consumes_allowance() {
    let mut game = CompactGame::new();
    let isolated = GridPosition { x: 3, y: 3 };
    assert_eq!(Err(CompactEditError::RoadRequired(isolated)), game.place_building(isolated));

    let first = game.place_building(GridPosition { x: 7, y: 10 }).expect("starter apron provides frontage");
    let second = game.place_building(GridPosition { x: 9, y: 10 }).expect("second permit is available");
    assert_ne!(first, second);
    assert!(matches!(
        game.place_building(GridPosition { x: 8, y: 10 }),
        Err(CompactEditError::BuildingAllowanceExhausted { used: 2, limit: 2 })
    ));
}

#[test]
fn trucks_never_leave_authored_roads_and_shared_cells_do_not_block_motion() {
    let mut game = CompactGame::new();
    road_line(
        &mut game,
        (2..=9).map(|y| GridPosition { x: 7, y }).chain((3..=7).map(|x| GridPosition { x, y: 2 })),
    );
    game.place_road(GridPosition { x: 2, y: 3 }).unwrap();
    let building = game.place_building(GridPosition { x: 6, y: 3 }).expect("building fronts the trunk road");
    game.configure_building(building, CompactRecipe::IronBars).unwrap();

    for _ in 0..120 {
        let snapshot = game.step();
        assert!(snapshot.trucks.iter().all(|truck| snapshot.roads.contains(&truck.position)));
    }
}

#[test]
fn active_truck_routes_cannot_be_erased_out_from_under_cargo() {
    let mut game = CompactGame::new();
    trunk_road(&mut game);
    let building = game.place_building(GridPosition { x: 6, y: 3 }).expect("building fronts the route");
    game.configure_building(building, CompactRecipe::IronBars).unwrap();

    let route_cell = (0..40)
        .find_map(|_| game.step().trucks.into_iter().find_map(|truck| truck.route.first().copied()))
        .expect("a truck receives an active route");

    assert_eq!(Err(CompactEditError::RoadInUse(route_cell)), game.remove_road(route_cell));
    assert!(game.snapshot().roads.contains(&route_cell));
}

#[test]
fn connected_factory_sells_finished_goods_and_unlocks_capacity() {
    let mut game = CompactGame::new();
    trunk_road(&mut game);
    let building = game.place_building(GridPosition { x: 6, y: 3 }).expect("building fronts the route");
    game.configure_building(building, CompactRecipe::IronBars).unwrap();

    let mut snapshot = game.snapshot();
    for _ in 0..800 {
        snapshot = game.step();
        if snapshot.allowance.limit > 2 {
            break;
        }
    }

    assert!(snapshot.market.sold_total >= 20);
    assert!(snapshot.market.demand_per_cycle > 4);
    assert!(snapshot.allowance.limit > 2);
}

/// The route of the headless-play guide: a column up x=7 from the apron and a
/// row west along y=2 to the iron deposit, with a factory beside it.
fn iron_route() -> Vec<PlayRequest> {
    let mut requests: Vec<PlayRequest> = (2..=8).rev().map(|y| PlayRequest::PlaceRoad { x: 7, y }).collect();
    requests.extend((3..=6).rev().map(|x| PlayRequest::PlaceRoad { x, y: 2 }));
    requests.push(PlayRequest::PlaceBuilding { x: 6, y: 3 });
    requests.push(PlayRequest::ConfigureBuilding { building: 0, recipe: CompactRecipe::IronBars });
    requests
}

#[test]
fn play_runs_the_compact_loop_to_revenue() {
    let mut requests = iron_route();
    requests.push(PlayRequest::Step { ticks: 600 });
    let mut game = CompactGame::new();
    let mut spent = 0u64;
    let responses: Vec<_> = requests.into_iter().map(|request| apply(&mut game, request, &mut spent, 600)).collect();

    let placement = &responses[11];
    assert_eq!(Some(0), placement.building);
    assert!(placement.ok);

    let final_snapshot = &responses.last().expect("final response").snapshot;
    assert_eq!(600, final_snapshot.tick);
    assert_eq!(589, final_snapshot.market.sold_total);
    assert_eq!(5890, final_snapshot.market.revenue);
    assert_eq!(6, final_snapshot.allowance.limit);
    assert!(!final_snapshot.events.is_empty());
}

#[test]
fn a_game_restored_from_its_parts_keeps_stepping_identically() {
    let mut game = CompactGame::new();
    trunk_road(&mut game);
    let building = game.place_building(GridPosition { x: 6, y: 3 }).unwrap();
    game.configure_building(building, CompactRecipe::IronBars).unwrap();
    for _ in 0..400 {
        game.step();
    }
    let mut restored = CompactGame::from_parts(game.to_parts()).expect("a played game restores");
    for _ in 0..200 {
        assert_eq!(game.step(), restored.step());
    }
}

#[test]
fn parts_with_a_truck_off_the_roads_are_refused() {
    let game = CompactGame::new();
    let mut parts = game.to_parts();
    parts.trucks[0].position = GridPosition { x: 0, y: 0 };
    assert!(matches!(CompactGame::from_parts(parts), Err(CompactSaveError::Malformed(_))));
}

#[test]
fn a_save_of_another_format_is_refused_with_its_version() {
    assert_eq!(Ok(()), factory_sim::player::check_save_version(1));
    assert_eq!(
        Err(CompactSaveError::UnsupportedVersion { found: 9999, supported: 1 }),
        factory_sim::player::check_save_version(9999)
    );
}

#[test]
fn edits_outside_the_world_and_unknown_buildings_are_refused() {
    let mut game = CompactGame::new();
    let outside = GridPosition { x: 99, y: 99 };
    assert_eq!(Err(CompactEditError::OutOfBounds(outside)), game.place_road(outside));
    assert_eq!(Err(CompactEditError::OutOfBounds(outside)), game.remove_road(outside));
    assert_eq!(Err(CompactEditError::UnknownBuilding(404)), game.configure_building(404, CompactRecipe::IronBars));
    let occupied = GridPosition { x: 8, y: 9 };
    assert_eq!(Err(CompactEditError::CellOccupied(occupied)), game.place_building(occupied));
    assert_eq!(
        "building allowance exhausted (2/2)",
        CompactEditError::BuildingAllowanceExhausted { used: 2, limit: 2 }.message()
    );
    assert_eq!("cell 99,99 is outside the compact world", CompactEditError::OutOfBounds(outside).message());
}

#[test]
fn the_first_ticks_mine_and_dispatch_without_goods_appearing() {
    let mut game = CompactGame::new();
    trunk_road(&mut game);
    let building = game.place_building(GridPosition { x: 6, y: 3 }).unwrap();
    game.configure_building(building, CompactRecipe::IronBars).unwrap();
    let first = game.step();
    assert_eq!(1, first.tick);
    assert_eq!(600, first.deposits[0].remaining);
    let second = game.step();
    assert_eq!(599, second.deposits[0].remaining);
    assert_eq!(1, second.deposits[0].stockpile);
    assert!(second.trucks.iter().any(|truck| matches!(truck.task, CompactTruckTask::CollectRaw { .. })));
    assert_eq!(0, second.market.sold_total);
}

#[test]
fn the_world_total_counts_every_stockpile() {
    let mut game = CompactGame::new();
    assert_eq!(0, total_item(&game.snapshot(), IRON_ORE));
    game.step();
    let snapshot = game.step();
    assert_eq!(2, total_item(&snapshot, IRON_ORE));
    assert_eq!(0, total_item(&snapshot, IRON_BARS));
}

fn goods_measure(snapshot: &factory_sim::CompactSnapshot) -> u64 {
    let weight = |item: Option<factory_sim::content::ItemId>| -> u64 {
        match item {
            Some(IRON_BARS) | Some(factory_sim::content::COPPER_BARS) => 33,
            _ => 110,
        }
    };
    let deposits: u64 = snapshot.deposits.iter().map(|d| 110 * (d.remaining as u64 + d.stockpile as u64)).sum();
    let buildings: u64 = snapshot
        .buildings
        .iter()
        .map(|b| 110 * b.input_stock as u64 + 33 * b.output_stock as u64 + if b.craft_progress > 0 { 330 } else { 0 })
        .sum();
    let trucks: u64 = snapshot.trucks.iter().map(|t| t.cargo_quantity as u64 * weight(t.cargo_item)).sum();
    let stock: u64 = snapshot.warehouse_stock.iter().map(|(item, n)| *n as u64 * weight(Some(*item))).sum();
    deposits + buildings + trucks + stock + 3 * snapshot.market.revenue as u64 + 3 * snapshot.market.sold_total as u64
}

#[test]
fn no_tick_creates_goods_and_every_bar_sold_earns_ten() {
    let mut game = CompactGame::new();
    trunk_road(&mut game);
    let building = game.place_building(GridPosition { x: 6, y: 3 }).unwrap();
    game.configure_building(building, CompactRecipe::IronBars).unwrap();
    let mut before = goods_measure(&game.snapshot());
    assert_eq!(4 * 600 * 110, before);
    for _ in 0..400 {
        let snapshot = game.step();
        let now = goods_measure(&snapshot);
        assert!(now <= before);
        before = now;
        assert_eq!(10 * snapshot.market.sold_total, snapshot.market.revenue);
        let unlocked = 2 + [20, 50, 90, 140].iter().filter(|t| snapshot.market.sold_total >= **t).count() as u16;
        assert_eq!(unlocked.max(2), snapshot.allowance.limit);
        assert!(snapshot.allowance.used <= snapshot.allowance.limit);
    }
}

#[test]
fn the_market_opens_a_cycle_every_twenty_ticks() {
    let mut game = CompactGame::new();
    for _ in 0..19 {
        game.step();
    }
    let before = game.snapshot();
    assert_eq!(0, before.market.cycle);
    let at_cycle = game.step();
    assert_eq!(1, at_cycle.market.cycle);
    assert_eq!(5, at_cycle.market.demand_per_cycle);
    assert_eq!(9, at_cycle.market.remaining_demand);
    assert_eq!(vec!["market cycle 1 demand +5".to_string()], at_cycle.events);
}

#[test]
fn top_status_counts_all_authoritative_stockpile_locations() {
    let mut game = CompactGame::new();
    let mut snapshot = game.snapshot();
    for _ in 0..8 {
        snapshot = game.step();
    }

    assert_eq!(8, total_item(&snapshot, IRON_ORE));
    assert_eq!(8, total_item(&snapshot, factory_sim::content::COPPER_ORE));
    assert_eq!(0, total_item(&snapshot, IRON_BARS));
}
