//! Turn-by-turn play of the compact game: one request in, one response out.
//! Every response carries the world as the player sees it; a refused edit or
//! an oversized step is an ordinary answer with a stable kind of error, and
//! the session goes on.
use vstd::prelude::*;
use crate::node::GridPosition;
use crate::player::{
    building_refusal, edit_error_text, removal_refusal, road_refusal, same_but_buildings, same_but_roads, shows, texts, CompactEditError, CompactGame,
    CompactRecipe, CompactSnapshot, MARKET_CYCLE_TICKS,
};
use crate::text::{decimal, push_str, push_u64};

verus! {

/// A request of a play session.
#[derive(Clone, Copy, Debug, PartialEq, Eq, Structural)]
pub enum PlayRequest {
    Observe,
    Step { ticks: u64 },
    PlaceRoad { x: i32, y: i32 },
    RemoveRoad { x: i32, y: i32 },
    PlaceBuilding { x: i32, y: i32 },
    ConfigureBuilding { building: u16, recipe: CompactRecipe },
    Save,
    Quit,
}

/// The answer to a request: whether it succeeded, why not, what it changed,
/// and the world after it.
#[derive(Clone, Debug)]
pub struct PlayResponse {
    pub ok: bool,
    pub error: Option<String>,
    pub error_kind: Option<String>,
    pub changed: Option<bool>,
    pub building: Option<u16>,
    pub save: Option<String>,
    pub snapshot: CompactSnapshot,
}

/// The stable name of each kind of refused edit.
pub open spec fn edit_kind_text(e: CompactEditError) -> Seq<char> {
    match e {
        CompactEditError::OutOfBounds(_) => "out_of_bounds"@,
        CompactEditError::CellOccupied(_) => "cell_occupied"@,
        CompactEditError::RoadInUse(_) => "road_in_use"@,
        CompactEditError::RoadRequired(_) => "road_required"@,
        CompactEditError::BuildingAllowanceExhausted { .. } => "building_allowance_exhausted"@,
        CompactEditError::UnknownBuilding(_) => "unknown_building"@,
    }
}

/// The stable name of a refused edit's kind.
pub fn edit_error_kind(error: &CompactEditError) -> (r: &'static str)
    ensures
        r@ == edit_kind_text(*error),
{
    match error {
        CompactEditError::OutOfBounds(_) => "out_of_bounds",
        CompactEditError::CellOccupied(_) => "cell_occupied",
        CompactEditError::RoadInUse(_) => "road_in_use",
        CompactEditError::RoadRequired(_) => "road_required",
        CompactEditError::BuildingAllowanceExhausted { .. } => "building_allowance_exhausted",
        CompactEditError::UnknownBuilding(_) => "unknown_building",
    }
}

fn text_of(piece: &str) -> (r: String)
    ensures
        r@ == piece@,
{
    let mut s = String::new();
    push_str(&mut s, piece);
    assert(s@ =~= piece@);
    s
}

/// A successful answer, showing the world.
pub open spec fn plain(r: PlayResponse) -> bool {
    &&& r.ok
    &&& r.error is None
    &&& r.error_kind is None
    &&& r.changed is None
    &&& r.building is None
    &&& r.save is None
}

/// A failed answer of a kind, with a reason.
pub open spec fn failure(r: PlayResponse, kind: Seq<char>, detail: Seq<char>) -> bool {
    &&& !r.ok
    &&& r.error matches Some(e) && e@ == detail
    &&& r.error_kind matches Some(k) && k@ == kind
    &&& r.changed is None
    &&& r.building is None
    &&& r.save is None
}

impl PlayResponse {
    /// A successful answer with a snapshot.
    pub fn base(snapshot: CompactSnapshot) -> (r: Self)
        ensures
            plain(r),
            r.snapshot == snapshot,
    {
        PlayResponse { ok: true, error: None, error_kind: None, changed: None, building: None, save: None, snapshot }
    }

    /// A successful answer showing the game now.
    pub fn ok(game: &mut CompactGame) -> (r: Self)
        requires
            old(game).wf(),
        ensures
            final(game).wf(),
            plain(r),
            shows(r.snapshot, old(game)@),
            texts(r.snapshot.events@) == old(game)@.events,
            final(game)@.events.len() == 0,
            final(game)@ == (crate::player::CompactModel { events: Seq::empty(), ..old(game)@ }),
    {
        PlayResponse::base(game.snapshot())
    }

    /// A failed answer of a kind, with the reason, showing the game now.
    pub fn failed(kind: &str, detail: String, game: &mut CompactGame) -> (r: Self)
        requires
            old(game).wf(),
        ensures
            final(game).wf(),
            failure(r, kind@, detail@),
            shows(r.snapshot, old(game)@),
            texts(r.snapshot.events@) == old(game)@.events,
            final(game)@ == (crate::player::CompactModel { events: Seq::empty(), ..old(game)@ }),
    {
        let snapshot = game.snapshot();
        PlayResponse {
            ok: false,
            error: Some(detail),
            error_kind: Some(text_of(kind)),
            changed: None,
            building: None,
            save: None,
            snapshot,
        }
    }

    /// A refused edit: its kind and message, and the unchanged world.
    pub fn rejected(error: CompactEditError, game: &mut CompactGame) -> (r: Self)
        requires
            old(game).wf(),
        ensures
            final(game).wf(),
            failure(r, edit_kind_text(error), edit_error_text(error)),
            shows(r.snapshot, old(game)@),
            texts(r.snapshot.events@) == old(game)@.events,
            final(game)@ == (crate::player::CompactModel { events: Seq::empty(), ..old(game)@ }),
    {
        let message = error.message();
        PlayResponse::failed(edit_error_kind(&error), message, game)
    }

    pub fn with_changed(self, changed: bool) -> (r: Self)
        ensures
            r == (PlayResponse { changed: Some(changed), ..self }),
    {
        PlayResponse { changed: Some(changed), ..self }
    }

    pub fn with_building(self, building: u16) -> (r: Self)
        ensures
            r == (PlayResponse { building: Some(building), ..self }),
    {
        PlayResponse { building: Some(building), ..self }
    }

    pub fn with_save(self, raw: String) -> (r: Self)
        ensures
            r == (PlayResponse { save: Some(raw), ..self }),
    {
        PlayResponse { save: Some(raw), ..self }
    }
}

/// The ticks left of a session's budget.
pub open spec fn budget(spent: u64, max_ticks: u64) -> nat {
    if spent >= max_ticks { 0 } else { (max_ticks - spent) as nat }
}

pub open spec fn budget_text(ticks: u64, left: nat) -> Seq<char> {
    "step of "@ + decimal(ticks as nat) + " exceeds the remaining budget of "@ + decimal(left)
}

/// Whether a game can run `ticks` more ticks without its tick or market
/// cycle counters overflowing.
pub open spec fn tick_room(game: crate::player::CompactModel, ticks: u64) -> bool {
    &&& game.tick + ticks < u64::MAX
    &&& game.market.cycle + (game.tick + ticks) / (MARKET_CYCLE_TICKS as int) - (game.tick as int) / (MARKET_CYCLE_TICKS as int) + 5 <= u32::MAX
}

/// Whether a step request would run the game's tick or market cycle counter
/// past its largest value: the step fits the budget, but not the counters.
pub fn step_overflows(game: &CompactGame, ticks: u64, spent: u64, max_ticks: u64) -> (r: bool)
    requires
        game.wf(),
    ensures
        r == (ticks <= budget(spent, max_ticks) && !tick_room(game@, ticks)),
{
    let left: u64 = max_ticks.saturating_sub(spent);
    if ticks > left {
        return false;
    }
    let (tick, cycle) = game.counters();
    let end: u128 = tick as u128 + ticks as u128;
    if end >= u64::MAX as u128 {
        return true;
    }
    let cycles: u128 = end / 20 - (tick as u128) / 20;
    !(cycle as u128 + cycles + 5 <= u32::MAX as u128)
}

/// Runs a step request within the session's tick budget. A step beyond the
/// budget is refused and changes nothing; the ticks of a step count against
/// the budget, and the answer carries the events of every tick.
pub fn step(game: &mut CompactGame, ticks: u64, spent: &mut u64, max_ticks: u64) -> (r: PlayResponse)
    requires
        old(game).wf(),
        ticks <= budget(*old(spent), max_ticks) ==> tick_room(old(game)@, ticks),
    ensures
        final(game).wf(),
        final(game)@.events.len() == 0,
        ticks > budget(*old(spent), max_ticks) ==> {
            &&& failure(r, "tick_budget_exhausted"@, budget_text(ticks, budget(*old(spent), max_ticks)))
            &&& shows(r.snapshot, old(game)@)
            &&& final(game)@ == (crate::player::CompactModel { events: Seq::empty(), ..old(game)@ })
            &&& *final(spent) == *old(spent)
        },
        ticks == 0 ==> {
            &&& plain(r)
            &&& shows(r.snapshot, old(game)@)
            &&& final(game)@ == (crate::player::CompactModel { events: Seq::empty(), ..old(game)@ })
            &&& *final(spent) == *old(spent)
        },
        0 < ticks <= budget(*old(spent), max_ticks) ==> {
            &&& plain(r)
            &&& final(game)@.tick == old(game)@.tick + ticks
            &&& shows(r.snapshot, final(game)@)
            &&& *final(spent) == *old(spent) + ticks
        },
{
    let left: u64 = max_ticks.saturating_sub(*spent);
    if ticks > left {
        let mut detail = String::new();
        push_str(&mut detail, "step of ");
        push_u64(&mut detail, ticks);
        push_str(&mut detail, " exceeds the remaining budget of ");
        push_u64(&mut detail, left);
        proof {
            reveal_strlit("step of ");
            reveal_strlit(" exceeds the remaining budget of ");
            assert(detail@ =~= budget_text(ticks, budget(*old(spent), max_ticks)));
            reveal_strlit("tick_budget_exhausted");
        }
        return PlayResponse::failed("tick_budget_exhausted", detail, game);
    }
    if ticks == 0 {
        return PlayResponse::ok(game);
    }
    let ghost t0 = game@.tick;
    let ghost c0 = game@.market.cycle;
    let mut events: Vec<String> = Vec::new();
    let mut snapshot = game.snapshot();
    let mut j: u64 = 0;
    while j < ticks
        invariant
            game.wf(),
            j <= ticks,
            tick_room(old(game)@, ticks),
            t0 == old(game)@.tick,
            c0 == old(game)@.market.cycle,
            game@.tick == t0 + j,
            game@.market.cycle == c0 + (t0 + j) / (MARKET_CYCLE_TICKS as int) - (t0 as int) / (MARKET_CYCLE_TICKS as int),
            game@.events.len() == 0,
            shows(snapshot, game@),
        decreases ticks - j,
    {
        proof {
            assert((t0 + j) / 20 <= (t0 + ticks) / 20) by (nonlinear_arith)
                requires
                    j <= ticks;
        }
        snapshot = game.step();
        events.append(&mut snapshot.events);
        proof {
            assert(((t0 + j + 1) % 20 == 0) ==> (t0 + j + 1) / 20 == (t0 + j) / 20 + 1);
            assert(((t0 + j + 1) % 20 != 0) ==> (t0 + j + 1) / 20 == (t0 + j) / 20);
        }
        j = j + 1;
    }
    *spent = *spent + ticks;
    snapshot.events = events;
    PlayResponse::base(snapshot)
}

/// The cell a request names.
pub open spec fn cell(x: i32, y: i32) -> GridPosition {
    GridPosition { x, y }
}

/// Answers a request other than saving or quitting, which the session loop
/// handles: observing shows the world, a step runs within the budget, and an
/// edit either goes through, telling what it changed, or is refused with its
/// kind and reason.
pub fn apply(game: &mut CompactGame, request: PlayRequest, spent: &mut u64, max_ticks: u64) -> (r: PlayResponse)
    requires
        old(game).wf(),
        !(request is Save),
        !(request is Quit),
        request matches PlayRequest::Step { ticks } ==> (ticks <= budget(*old(spent), max_ticks) ==> tick_room(old(game)@, ticks)),
    ensures
        final(game).wf(),
        final(game)@.events.len() == 0,
        !(request is Step) ==> *final(spent) == *old(spent),
        request is Observe ==> plain(r) && shows(r.snapshot, old(game)@) && final(game)@ == (crate::player::CompactModel { events: Seq::empty(), ..old(game)@ }),
        request matches PlayRequest::PlaceRoad { x, y } ==> match road_refusal(old(game)@, cell(x, y)) {
            Some(e) => failure(r, edit_kind_text(e), edit_error_text(e))
                && final(game)@ == (crate::player::CompactModel { events: Seq::empty(), ..old(game)@ })
                && shows(r.snapshot, old(game)@),
            None => r.ok && r.error is None && r.changed == Some(!old(game)@.roads.contains(cell(x, y)))
                && final(game)@.roads == old(game)@.roads.insert(cell(x, y))
                && same_but_roads(final(game)@, old(game)@)
                && shows(r.snapshot, (crate::player::CompactModel { events: Seq::empty(), ..final(game)@ })),
        },
        request matches PlayRequest::RemoveRoad { x, y } ==> match removal_refusal(old(game)@, cell(x, y)) {
            Some(e) => failure(r, edit_kind_text(e), edit_error_text(e))
                && final(game)@ == (crate::player::CompactModel { events: Seq::empty(), ..old(game)@ })
                && shows(r.snapshot, old(game)@),
            None => r.ok && r.error is None && r.changed == Some(old(game)@.roads.contains(cell(x, y)))
                && final(game)@.roads == old(game)@.roads.remove(cell(x, y))
                && same_but_roads(final(game)@, old(game)@)
                && shows(r.snapshot, (crate::player::CompactModel { events: Seq::empty(), ..final(game)@ })),
        },
        request matches PlayRequest::PlaceBuilding { x, y } ==> match building_refusal(old(game)@, cell(x, y)) {
            Some(e) => failure(r, edit_kind_text(e), edit_error_text(e))
                && final(game)@ == (crate::player::CompactModel { events: Seq::empty(), ..old(game)@ })
                && shows(r.snapshot, old(game)@),
            None => r.ok && r.error is None && r.building == Some(crate::player::next_building_id(old(game)@.buildings))
                && final(game)@.buildings == old(game)@.buildings.push(crate::player::CompactBuilding {
                    id: crate::player::next_building_id(old(game)@.buildings),
                    position: cell(x, y),
                    recipe: None,
                    input_stock: 0,
                    output_stock: 0,
                    craft_progress: 0,
                })
                && same_but_buildings(final(game)@, old(game)@)
                && shows(r.snapshot, (crate::player::CompactModel { events: Seq::empty(), ..final(game)@ })),
        },
        request matches PlayRequest::ConfigureBuilding { building, recipe } ==> {
            &&& r.ok == !crate::player::no_building_with_id(old(game)@.buildings, building)
            &&& r.ok ==> plain(r) && same_but_buildings(final(game)@, old(game)@)
            &&& !r.ok ==> failure(r, "unknown_building"@, edit_error_text(CompactEditError::UnknownBuilding(building)))
                && shows(r.snapshot, old(game)@)
        },
        request matches PlayRequest::Step { ticks } ==> {
            &&& r.ok == (ticks <= budget(*old(spent), max_ticks))
            &&& r.ok ==> final(game)@.tick == old(game)@.tick + ticks && *final(spent) == *old(spent) + (if ticks == 0 { 0 } else { ticks as int })
            &&& !r.ok ==> final(game)@ == (crate::player::CompactModel { events: Seq::empty(), ..old(game)@ }) && *final(spent) == *old(spent)
        },
{
    match request {
        PlayRequest::Observe => PlayResponse::ok(game),
        PlayRequest::Step { ticks } => step(game, ticks, spent, max_ticks),
        PlayRequest::PlaceRoad { x, y } => match game.place_road(GridPosition { x, y }) {
            Ok(changed) => PlayResponse::ok(game).with_changed(changed),
            Err(error) => PlayResponse::rejected(error, game),
        },
        PlayRequest::RemoveRoad { x, y } => match game.remove_road(GridPosition { x, y }) {
            Ok(changed) => PlayResponse::ok(game).with_changed(changed),
            Err(error) => PlayResponse::rejected(error, game),
        },
        PlayRequest::PlaceBuilding { x, y } => match game.place_building(GridPosition { x, y }) {
            Ok(building) => PlayResponse::ok(game).with_building(building),
            Err(error) => PlayResponse::rejected(error, game),
        },
        PlayRequest::ConfigureBuilding { building, recipe } => match game.configure_building(building, recipe) {
            Ok(()) => PlayResponse::ok(game),
            Err(error) => PlayResponse::rejected(error, game),
        },
        PlayRequest::Save => PlayResponse::ok(game),
        PlayRequest::Quit => PlayResponse::ok(game),
    }
}

} // verus!
