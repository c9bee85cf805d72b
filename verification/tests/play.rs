use factory_sim::play::{apply, edit_error_kind, PlayRequest};
use factory_sim::{CompactEditError, CompactGame, CompactRecipe, GridPosition};

#[test]
fn refused_edits_answer_with_their_kind_and_keep_the_world() {
    let mut game = CompactGame::new();
    let mut spent = 0u64;
    let requests = [
        PlayRequest::PlaceRoad { x: 99, y: 99 },
        PlayRequest::PlaceBuilding { x: 0, y: 0 },
        PlayRequest::ConfigureBuilding { building: 404, recipe: CompactRecipe::IronBars },
    ];
    let kinds = ["out_of_bounds", "road_required", "unknown_building"];
    for (request, kind) in requests.into_iter().zip(kinds) {
        let response = apply(&mut game, request, &mut spent, 2000);
        assert!(!response.ok);
        assert_eq!(Some(kind.to_string()), response.error_kind);
        assert!(response.error.is_some_and(|e| !e.is_empty()));
        assert_eq!(3, response.snapshot.roads.len());
    }
    assert!(apply(&mut game, PlayRequest::Observe, &mut spent, 2000).ok);
}

#[test]
fn a_step_past_the_budget_is_refused_and_changes_nothing() {
    let mut game = CompactGame::new();
    let mut spent = 0u64;
    let first = apply(&mut game, PlayRequest::Step { ticks: 5 }, &mut spent, 5);
    assert_eq!(5, first.snapshot.tick);
    assert_eq!(5, spent);
    let second = apply(&mut game, PlayRequest::Step { ticks: 1 }, &mut spent, 5);
    assert!(!second.ok);
    assert_eq!(Some("tick_budget_exhausted".to_string()), second.error_kind);
    assert_eq!(Some("step of 1 exceeds the remaining budget of 0".to_string()), second.error);
    assert_eq!(5, second.snapshot.tick);
    assert_eq!(5, spent);
}

#[test]
fn an_edit_answers_what_it_changed() {
    let mut game = CompactGame::new();
    let mut spent = 0u64;
    let placed = apply(&mut game, PlayRequest::PlaceRoad { x: 8, y: 7 }, &mut spent, 10);
    assert!(placed.ok);
    assert_eq!(Some(true), placed.changed);
    assert_eq!(vec!["road placed 8,7".to_string()], placed.snapshot.events);
    let again = apply(&mut game, PlayRequest::PlaceRoad { x: 8, y: 7 }, &mut spent, 10);
    assert_eq!(Some(false), again.changed);
    let building = apply(&mut game, PlayRequest::PlaceBuilding { x: 9, y: 7 }, &mut spent, 10);
    assert_eq!(Some(0), building.building);
    let zero = apply(&mut game, PlayRequest::Step { ticks: 0 }, &mut spent, 10);
    assert!(zero.ok);
    assert_eq!(0, zero.snapshot.tick);
    assert_eq!(0, spent);
}

#[test]
fn every_edit_error_has_a_stable_kind() {
    let p = GridPosition { x: 1, y: 2 };
    assert_eq!("out_of_bounds", edit_error_kind(&CompactEditError::OutOfBounds(p)));
    assert_eq!("cell_occupied", edit_error_kind(&CompactEditError::CellOccupied(p)));
    assert_eq!("road_in_use", edit_error_kind(&CompactEditError::RoadInUse(p)));
    assert_eq!("road_required", edit_error_kind(&CompactEditError::RoadRequired(p)));
    assert_eq!(
        "building_allowance_exhausted",
        edit_error_kind(&CompactEditError::BuildingAllowanceExhausted { used: 2, limit: 2 })
    );
    assert_eq!("unknown_building", edit_error_kind(&CompactEditError::UnknownBuilding(7)));
    assert_eq!("building at 1,2 needs road frontage", CompactEditError::RoadRequired(p).message());
}
