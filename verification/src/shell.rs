//! The player's session of the compact game: the tool in hand, the selected
//! factory, whether time runs, and the line of feedback after each action.
//! Drawing, timing and storage belong to the program around it.
use vstd::prelude::*;
use crate::content::ItemId;
use crate::node::GridPosition;
use crate::player::{
    building_refusal, edit_error_text, in_bounds, object_at, recipe_name, shows, texts, CompactBuildingSnapshot,
    save_error_text, CompactDepositSnapshot, CompactEditError, CompactGame, CompactRecipe, CompactSaveError, CompactSnapshot,
};
use crate::tally::{first_index, lemma_first_index};
use crate::text::{decimal, push_str, push_u64};

verus! {

pub const MIN_ZOOM_LEVEL: u8 = 1;
pub const MAX_ZOOM_LEVEL: u8 = 10;

/// What a click on a cell does.
#[derive(Copy, Clone, Debug, PartialEq, Eq, Structural)]
pub enum ToolMode {
    Inspect,
    Road,
    Erase,
    Building,
}

pub open spec fn tool_label(tool: ToolMode) -> Seq<char> {
    match tool {
        ToolMode::Inspect => "INSPECT"@,
        ToolMode::Road => "DRAW ROAD"@,
        ToolMode::Erase => "ERASE ROAD"@,
        ToolMode::Building => "PLACE FACTORY"@,
    }
}

impl ToolMode {
    /// The label of the tool's button.
    pub fn label(self) -> (r: &'static str)
        ensures
            r@ == tool_label(self),
    {
        match self {
            ToolMode::Inspect => "INSPECT",
            ToolMode::Road => "DRAW ROAD",
            ToolMode::Erase => "ERASE ROAD",
            ToolMode::Building => "PLACE FACTORY",
        }
    }
}

/// A button or key of the control panel.
#[derive(Copy, Clone, Debug, PartialEq, Eq, Structural)]
pub enum ControlAction {
    SetTool(ToolMode),
    Configure(CompactRecipe),
    TogglePause,
    Step,
    Reset,
    ToggleSpeed,
    ZoomIn,
    ZoomOut,
}

/// The player's session: the game, what the player last saw of it, and the
/// controls' state. `fast` is the fast speed of eight ticks a second, against
/// the normal two.
pub struct SimHost {
    pub game: CompactGame,
    pub snapshot: CompactSnapshot,
    pub paused: bool,
    pub fast: bool,
    pub tool: ToolMode,
    pub selected_building: Option<u16>,
    pub feedback: String,
    pub snapshot_revision: u64,
    pub saved_revision: u64,
}

/// How the shell names an item in its status lines.
pub open spec fn item_label(item: ItemId) -> Seq<char> {
    match item {
        ItemId::IronOre => "iron ore"@,
        ItemId::CopperOre => "copper ore"@,
        ItemId::IronBars => "iron bars"@,
        ItemId::CopperBars => "copper bars"@,
        _ => "item"@,
    }
}

/// How the shell names an item in its status lines.
pub fn item_label_text(item: ItemId) -> (r: &'static str)
    ensures
        r@ == item_label(item),
{
    match item {
        ItemId::IronOre => "iron ore",
        ItemId::CopperOre => "copper ore",
        ItemId::IronBars => "iron bars",
        ItemId::CopperBars => "copper bars",
        _ => "item",
    }
}

pub open spec fn deposit_at(cell: GridPosition) -> spec_fn(CompactDepositSnapshot) -> bool {
    |d: CompactDepositSnapshot| d.position == cell
}

pub open spec fn building_at(cell: GridPosition) -> spec_fn(CompactBuildingSnapshot) -> bool {
    |b: CompactBuildingSnapshot| b.position == cell
}

pub open spec fn building_with(id: u16) -> spec_fn(CompactBuildingSnapshot) -> bool {
    |b: CompactBuildingSnapshot| b.id == id
}

pub open spec fn recipe_or(recipe: Option<CompactRecipe>, otherwise: Seq<char>) -> Seq<char> {
    match recipe {
        Some(r) => recipe_name(r),
        None => otherwise,
    }
}

/// The inspector's line for a cell: the warehouse and the market, else the
/// first deposit there, else the first factory there, else a road, else an
/// empty cell.
pub open spec fn inspect_text(s: CompactSnapshot, cell: GridPosition) -> Seq<char> {
    if cell == s.warehouse_position {
        "Warehouse // demand "@ + decimal(s.market.remaining_demand as nat) + " // sold "@ + decimal(s.market.sold_total as nat)
            + " // revenue $"@ + decimal(s.market.revenue as nat)
    } else {
        match first_index(s.deposits@, deposit_at(cell)) {
            Some(i) => item_label(s.deposits@[i].item) + " deposit // stock "@ + decimal(s.deposits@[i].stockpile as nat)
                + " // remaining "@ + decimal(s.deposits@[i].remaining as nat),
            None => match first_index(s.buildings@, building_at(cell)) {
                Some(i) => "Factory "@ + decimal(s.buildings@[i].id as nat) + " // "@
                    + recipe_or(s.buildings@[i].recipe, "choose recipe"@) + " // input "@
                    + decimal(s.buildings@[i].input_stock as nat) + " // output "@ + decimal(s.buildings@[i].output_stock as nat),
                None => if s.roads@.contains(cell) { "Road // free // shared capacity"@ } else { "Empty cell."@ },
            },
        }
    }
}

/// The inspector's line for a cell.
pub fn inspect_cell(snapshot: &CompactSnapshot, cell: GridPosition) -> (r: String)
    ensures
        r@ == inspect_text(*snapshot, cell),
{
    let mut s = String::new();
    if cell == snapshot.warehouse_position {
        push_str(&mut s, "Warehouse // demand ");
        push_u64(&mut s, snapshot.market.remaining_demand as u64);
        push_str(&mut s, " // sold ");
        push_u64(&mut s, snapshot.market.sold_total as u64);
        push_str(&mut s, " // revenue $");
        push_u64(&mut s, snapshot.market.revenue as u64);
        proof {
            reveal_strlit("Warehouse // demand ");
            reveal_strlit(" // sold ");
            reveal_strlit(" // revenue $");
        }
        assert(s@ =~= inspect_text(*snapshot, cell));
        return s;
    }
    let mut k: usize = 0;
    while k < snapshot.deposits.len()
        invariant
            k <= snapshot.deposits@.len(),
            cell != snapshot.warehouse_position,
            s@.len() == 0,
            forall|j: int| 0 <= j < k ==> !deposit_at(cell)(#[trigger] snapshot.deposits@[j]),
        decreases snapshot.deposits@.len() - k,
    {
        let d = &snapshot.deposits[k];
        if d.position == cell {
            proof {
                assert(deposit_at(cell)(snapshot.deposits@[k as int]));
                lemma_first_index(snapshot.deposits@, deposit_at(cell), k as int);
            }
            push_str(&mut s, item_label_text(d.item));
            push_str(&mut s, " deposit // stock ");
            push_u64(&mut s, d.stockpile as u64);
            push_str(&mut s, " // remaining ");
            push_u64(&mut s, d.remaining as u64);
            proof {
                reveal_strlit(" deposit // stock ");
                reveal_strlit(" // remaining ");
            }
            assert(s@ =~= inspect_text(*snapshot, cell));
            return s;
        }
        k = k + 1;
    }
    proof {
        lemma_first_index(snapshot.deposits@, deposit_at(cell), k as int);
    }
    let mut k: usize = 0;
    while k < snapshot.buildings.len()
        invariant
            k <= snapshot.buildings@.len(),
            cell != snapshot.warehouse_position,
            first_index(snapshot.deposits@, deposit_at(cell)) is None,
            s@.len() == 0,
            forall|j: int| 0 <= j < k ==> !building_at(cell)(#[trigger] snapshot.buildings@[j]),
        decreases snapshot.buildings@.len() - k,
    {
        let b = &snapshot.buildings[k];
        if b.position == cell {
            proof {
                assert(building_at(cell)(snapshot.buildings@[k as int]));
                lemma_first_index(snapshot.buildings@, building_at(cell), k as int);
            }
            push_str(&mut s, "Factory ");
            push_u64(&mut s, b.id as u64);
            push_str(&mut s, " // ");
            match b.recipe {
                Some(recipe) => push_str(&mut s, recipe.name()),
                None => push_str(&mut s, "choose recipe"),
            }
            push_str(&mut s, " // input ");
            push_u64(&mut s, b.input_stock as u64);
            push_str(&mut s, " // output ");
            push_u64(&mut s, b.output_stock as u64);
            proof {
                reveal_strlit("Factory ");
                reveal_strlit(" // ");
                reveal_strlit("choose recipe");
                reveal_strlit(" // input ");
                reveal_strlit(" // output ");
            }
            assert(s@ =~= inspect_text(*snapshot, cell));
            return s;
        }
        k = k + 1;
    }
    proof {
        lemma_first_index(snapshot.buildings@, building_at(cell), k as int);
    }
    let mut found = false;
    let mut j: usize = 0;
    while j < snapshot.roads.len() && !found
        invariant
            j <= snapshot.roads@.len(),
            found ==> snapshot.roads@.contains(cell),
            !found ==> forall|i: int| 0 <= i < j ==> snapshot.roads@[i] != cell,
        decreases snapshot.roads@.len() - j, (if found { 0int } else { 1int }),
    {
        if snapshot.roads[j] == cell {
            found = true;
        } else {
            j = j + 1;
        }
    }
    if found {
        push_str(&mut s, "Road // free // shared capacity");
        proof { reveal_strlit("Road // free // shared capacity"); }
    } else {
        push_str(&mut s, "Empty cell.");
        proof { reveal_strlit("Empty cell."); }
    }
    assert(s@ =~= inspect_text(*snapshot, cell));
    s
}

/// The line naming the selected factory and its recipe.
pub open spec fn selection_text(s: CompactSnapshot, selected: Option<u16>) -> Seq<char> {
    match selected {
        None => "SELECTED // NONE"@,
        Some(id) => "SELECTED // FACTORY "@ + decimal(id as nat) + " // "@
            + (match first_index(s.buildings@, building_with(id)) {
                Some(i) => recipe_or(s.buildings@[i].recipe, "CHOOSE RECIPE"@),
                None => "CHOOSE RECIPE"@,
            }),
    }
}

/// The line naming the selected factory and its recipe.
pub fn selected_building_text(host: &SimHost) -> (r: String)
    ensures
        r@ == selection_text(host.snapshot, host.selected_building),
{
    let mut s = String::new();
    match host.selected_building {
        None => {
            push_str(&mut s, "SELECTED // NONE");
            proof { reveal_strlit("SELECTED // NONE"); }
        },
        Some(id) => {
            push_str(&mut s, "SELECTED // FACTORY ");
            push_u64(&mut s, id as u64);
            push_str(&mut s, " // ");
            let mut k: usize = 0;
            while k < host.snapshot.buildings.len() && host.snapshot.buildings[k].id != id
                invariant
                    k <= host.snapshot.buildings@.len(),
                    forall|j: int| 0 <= j < k ==> !building_with(id)(#[trigger] host.snapshot.buildings@[j]),
                decreases host.snapshot.buildings@.len() - k,
            {
                k = k + 1;
            }
            proof {
                if k < host.snapshot.buildings@.len() {
                    assert(building_with(id)(host.snapshot.buildings@[k as int]));
                }
                lemma_first_index(host.snapshot.buildings@, building_with(id), k as int);
                reveal_strlit("SELECTED // FACTORY ");
                reveal_strlit(" // ");
                reveal_strlit("CHOOSE RECIPE");
            }
            if k < host.snapshot.buildings.len() {
                match host.snapshot.buildings[k].recipe {
                    Some(recipe) => push_str(&mut s, recipe.name()),
                    None => push_str(&mut s, "CHOOSE RECIPE"),
                }
            } else {
                push_str(&mut s, "CHOOSE RECIPE");
            }
        },
    }
    assert(s@ =~= selection_text(host.snapshot, host.selected_building));
    s
}

/// The feedback line after showing a new snapshot: its last event, if it has
/// one.
pub open spec fn feedback_after(before: Seq<char>, events: Seq<Seq<char>>) -> Seq<char> {
    if events.len() > 0 { events.last() } else { before }
}

pub open spec fn placed_text(id: u16) -> Seq<char> {
    "Factory "@ + decimal(id as nat) + " placed. Choose its recipe."@
}

pub open spec fn configured_feedback(id: u16, recipe: CompactRecipe) -> Seq<char> {
    "Factory "@ + decimal(id as nat) + " now makes "@ + recipe_name(recipe) + "."@
}

fn last_event(events: &Vec<String>, before: &String) -> (r: String)
    ensures
        r@ == feedback_after(before@, texts(events@)),
{
    let n = events.len();
    if n > 0 {
        events[n - 1].clone()
    } else {
        before.clone()
    }
}

/// The feedback when a session starts from what the save slot held.
pub open spec fn restore_text(loaded: Option<Result<CompactGame, CompactSaveError>>) -> Seq<char> {
    match loaded {
        Some(Ok(_)) => "Restored your last session."@,
        Some(Err(e)) => "Could not read the saved session ("@ + save_error_text(e) + "). Started fresh."@,
        None => "Draw a road from the warehouse apron toward a deposit."@,
    }
}

/// The game a session starts with, and the feedback that tells how: the
/// saved game if the slot held a readable one, else a new game. An unreadable
/// save never blocks play.
pub fn restore_or_start(loaded: Option<Result<CompactGame, CompactSaveError>>) -> (r: (CompactGame, String))
    requires
        loaded matches Some(Ok(g)) ==> g.wf(),
    ensures
        r.0.wf(),
        r.1@ == restore_text(loaded),
        loaded matches Some(Ok(g)) ==> r.0 == g,
        !(loaded matches Some(Ok(_))) ==> crate::player::initial(r.0@),
{
    match loaded {
        Some(Ok(game)) => {
            let mut feedback = String::new();
            push_str(&mut feedback, "Restored your last session.");
            proof { reveal_strlit("Restored your last session."); }
            assert(feedback@ =~= restore_text(loaded));
            (game, feedback)
        },
        Some(Err(error)) => {
            let mut feedback = String::new();
            push_str(&mut feedback, "Could not read the saved session (");
            let message = error.message();
            push_str(&mut feedback, message.as_str());
            push_str(&mut feedback, "). Started fresh.");
            proof {
                reveal_strlit("Could not read the saved session (");
                reveal_strlit("). Started fresh.");
            }
            assert(feedback@ =~= restore_text(loaded));
            (CompactGame::new(), feedback)
        },
        None => {
            let mut feedback = String::new();
            push_str(&mut feedback, "Draw a road from the warehouse apron toward a deposit.");
            proof { reveal_strlit("Draw a road from the warehouse apron toward a deposit."); }
            assert(feedback@ =~= restore_text(loaded));
            (CompactGame::new(), feedback)
        },
    }
}

impl SimHost {
    /// The session's invariant: its game is well formed.
    pub open spec fn wf(&self) -> bool {
        self.game.wf()
    }

    /// A paused session of a game, in the inspect tool at normal speed, with
    /// nothing selected and the given feedback.
    pub fn start(game: CompactGame, feedback: String) -> (r: Self)
        requires
            game.wf(),
        ensures
            r.wf(),
            r.paused,
            !r.fast,
            r.tool == ToolMode::Inspect,
            r.selected_building is None,
            r.feedback@ == feedback@,
            shows(r.snapshot, game@),
            r.game@ == (crate::player::CompactModel { events: Seq::empty(), ..game@ }),
            r.snapshot_revision == 1,
            r.saved_revision == 0,
    {
        let mut game = game;
        let snapshot = game.snapshot();
        SimHost {
            game,
            snapshot,
            paused: true,
            fast: false,
            tool: ToolMode::Inspect,
            selected_building: None,
            feedback,
            snapshot_revision: 1,
            saved_revision: 0,
        }
    }

    /// Shows the game anew; its last event becomes the feedback.
    pub fn refresh(&mut self)
        requires
            old(self).wf(),
        ensures
            final(self).wf(),
            shows(final(self).snapshot, old(self).game@),
            final(self).game@ == (crate::player::CompactModel { events: Seq::empty(), ..old(self).game@ }),
            final(self).feedback@ == feedback_after(old(self).feedback@, old(self).game@.events),
            final(self).snapshot_revision == (if old(self).snapshot_revision == u64::MAX { 0 } else { old(self).snapshot_revision + 1 }),
            final(self).paused == old(self).paused,
            final(self).tool == old(self).tool,
            final(self).selected_building == old(self).selected_building,
            final(self).fast == old(self).fast,
            final(self).saved_revision == old(self).saved_revision,
    {
        self.snapshot = self.game.snapshot();
        self.feedback = last_event(&self.snapshot.events, &self.feedback);
        self.snapshot_revision = self.snapshot_revision.wrapping_add(1);
    }

    /// Advances the game one tick and shows it.
    pub fn step_once(&mut self)
        requires
            old(self).wf(),
            old(self).game@.tick < u64::MAX,
            (old(self).game@.tick + 1) % (crate::player::MARKET_CYCLE_TICKS as int) == 0 ==> old(self).game@.market.cycle + 5 <= u32::MAX,
        ensures
            final(self).wf(),
            final(self).game@.tick == old(self).game@.tick + 1,
            shows(final(self).snapshot, final(self).game@),
            final(self).feedback@ == feedback_after(old(self).feedback@, texts(final(self).snapshot.events@)),
            final(self).snapshot_revision == (if old(self).snapshot_revision == u64::MAX { 0 } else { old(self).snapshot_revision + 1 }),
            final(self).paused == old(self).paused,
            final(self).tool == old(self).tool,
            final(self).selected_building == old(self).selected_building,
            final(self).fast == old(self).fast,
            final(self).saved_revision == old(self).saved_revision,
    {
        self.snapshot = self.game.step();
        self.feedback = last_event(&self.snapshot.events, &self.feedback);
        self.snapshot_revision = self.snapshot_revision.wrapping_add(1);
    }

    /// Starts over with a new game, paused, in the inspect tool, with nothing
    /// selected; the fresh world counts as saved.
    pub fn reset(&mut self)
        ensures
            final(self).wf(),
            crate::player::initial(final(self).game@),
            shows(final(self).snapshot, final(self).game@),
            final(self).paused,
            final(self).tool == ToolMode::Inspect,
            final(self).selected_building is None,
            final(self).feedback@ == "World reset. Draw a road from the warehouse apron."@,
            final(self).snapshot_revision == (if old(self).snapshot_revision == u64::MAX { 0 } else { old(self).snapshot_revision + 1 }),
            final(self).saved_revision == final(self).snapshot_revision,
            final(self).fast == old(self).fast,
    {
        self.game = CompactGame::new();
        self.snapshot = self.game.snapshot();
        self.paused = true;
        self.tool = ToolMode::Inspect;
        self.selected_building = None;
        let mut feedback = String::new();
        push_str(&mut feedback, "World reset. Draw a road from the warehouse apron.");
        proof { reveal_strlit("World reset. Draw a road from the warehouse apron."); }
        assert(feedback@ =~= "World reset. Draw a road from the warehouse apron."@);
        self.feedback = feedback;
        self.snapshot_revision = self.snapshot_revision.wrapping_add(1);
        self.saved_revision = self.snapshot_revision;
    }

    /// Applies the tool in hand to a cell: draws or erases a road, places a
    /// factory and selects it, or inspects the cell and selects the factory
    /// there. A refused edit is told in the feedback.
    pub fn edit_cell(&mut self, cell: GridPosition)
        requires
            old(self).wf(),
        ensures
            final(self).wf(),
            final(self).paused == old(self).paused,
            final(self).fast == old(self).fast,
            old(self).tool == ToolMode::Road ==> {
                &&& !in_bounds(cell) ==> final(self).feedback@ == edit_error_text(CompactEditError::OutOfBounds(cell)) && final(self).game@ == old(self).game@
                &&& in_bounds(cell) && object_at(old(self).game@, cell) ==> final(self).feedback@ == edit_error_text(CompactEditError::CellOccupied(cell)) && final(self).game@ == old(self).game@
                &&& in_bounds(cell) && !object_at(old(self).game@, cell) && old(self).game@.roads.contains(cell)
                    ==> final(self).feedback@ == "Road already exists here."@ && final(self).game@ == old(self).game@
                &&& in_bounds(cell) && !object_at(old(self).game@, cell) && !old(self).game@.roads.contains(cell)
                    ==> final(self).game@.roads == old(self).game@.roads.insert(cell) && shows(final(self).snapshot, final(self).game@)
            },
            old(self).tool == ToolMode::Erase ==> {
                &&& !in_bounds(cell) ==> final(self).feedback@ == edit_error_text(CompactEditError::OutOfBounds(cell)) && final(self).game@ == old(self).game@
                &&& in_bounds(cell) && crate::player::road_in_use(old(self).game@, cell) ==> final(self).feedback@ == edit_error_text(CompactEditError::RoadInUse(cell)) && final(self).game@ == old(self).game@
                &&& in_bounds(cell) && !crate::player::road_in_use(old(self).game@, cell) && !old(self).game@.roads.contains(cell)
                    ==> final(self).feedback@ == "There is no road here."@ && final(self).game@ == old(self).game@
                &&& in_bounds(cell) && !crate::player::road_in_use(old(self).game@, cell) && old(self).game@.roads.contains(cell)
                    ==> final(self).game@.roads == old(self).game@.roads.remove(cell) && shows(final(self).snapshot, final(self).game@)
            },
            old(self).tool == ToolMode::Building ==> match building_refusal(old(self).game@, cell) {
                Some(e) => final(self).feedback@ == edit_error_text(e) && final(self).game@ == old(self).game@
                    && final(self).tool == old(self).tool && final(self).selected_building == old(self).selected_building,
                None => {
                    let id = crate::player::next_building_id(old(self).game@.buildings);
                    &&& final(self).selected_building == Some(id)
                    &&& final(self).tool == ToolMode::Inspect
                    &&& final(self).feedback@ == placed_text(id)
                    &&& final(self).game@.buildings == old(self).game@.buildings.push(crate::player::CompactBuilding {
                            id,
                            position: cell,
                            recipe: None,
                            input_stock: 0,
                            output_stock: 0,
                            craft_progress: 0,
                        })
                    &&& shows(final(self).snapshot, final(self).game@)
                },
            },
            old(self).tool == ToolMode::Inspect ==> {
                &&& final(self).game@ == old(self).game@
                &&& final(self).feedback@ == inspect_text(old(self).snapshot, cell)
                &&& final(self).selected_building == (match first_index(old(self).snapshot.buildings@, building_at(cell)) {
                        Some(i) => Some(old(self).snapshot.buildings@[i].id),
                        None => None::<u16>,
                    })
            },
    {
        let ghost before = self.game@;
        match self.tool {
            ToolMode::Road => match self.game.place_road(cell) {
                Ok(true) => self.refresh(),
                Ok(false) => {
                    assert(self.game@.roads =~= before.roads);
                    let mut feedback = String::new();
                    push_str(&mut feedback, "Road already exists here.");
                    proof { reveal_strlit("Road already exists here."); }
                    assert(feedback@ =~= "Road already exists here."@);
                    self.feedback = feedback;
                },
                Err(error) => self.feedback = error.message(),
            },
            ToolMode::Erase => match self.game.remove_road(cell) {
                Ok(true) => self.refresh(),
                Ok(false) => {
                    assert(self.game@.roads =~= before.roads);
                    let mut feedback = String::new();
                    push_str(&mut feedback, "There is no road here.");
                    proof { reveal_strlit("There is no road here."); }
                    assert(feedback@ =~= "There is no road here."@);
                    self.feedback = feedback;
                },
                Err(error) => self.feedback = error.message(),
            },
            ToolMode::Building => match self.game.place_building(cell) {
                Ok(building) => {
                    self.selected_building = Some(building);
                    self.tool = ToolMode::Inspect;
                    self.refresh();
                    let mut feedback = String::new();
                    push_str(&mut feedback, "Factory ");
                    push_u64(&mut feedback, building as u64);
                    push_str(&mut feedback, " placed. Choose its recipe.");
                    proof {
                        reveal_strlit("Factory ");
                        reveal_strlit(" placed. Choose its recipe.");
                    }
                    assert(feedback@ =~= placed_text(building));
                    self.feedback = feedback;
                },
                Err(error) => self.feedback = error.message(),
            },
            ToolMode::Inspect => {
                let mut k: usize = 0;
                while k < self.snapshot.buildings.len() && self.snapshot.buildings[k].position != cell
                    invariant
                        k <= self.snapshot.buildings@.len(),
                        forall|j: int| 0 <= j < k ==> !building_at(cell)(#[trigger] self.snapshot.buildings@[j]),
                    decreases self.snapshot.buildings@.len() - k,
                {
                    k = k + 1;
                }
                proof {
                    if k < self.snapshot.buildings@.len() {
                        assert(building_at(cell)(self.snapshot.buildings@[k as int]));
                    }
                    lemma_first_index(self.snapshot.buildings@, building_at(cell), k as int);
                }
                self.selected_building = if k < self.snapshot.buildings.len() { Some(self.snapshot.buildings[k].id) } else { None };
                self.feedback = inspect_cell(&self.snapshot, cell);
            },
        }
    }

    /// Sets the selected factory to a recipe, or asks for a selection first.
    pub fn configure_selected(&mut self, recipe: CompactRecipe)
        requires
            old(self).wf(),
        ensures
            final(self).wf(),
            final(self).selected_building == old(self).selected_building,
            final(self).tool == old(self).tool,
            final(self).paused == old(self).paused,
            old(self).selected_building is None ==> final(self).feedback@ == "Select a factory before assigning a recipe."@
                && final(self).game@ == old(self).game@,
            old(self).selected_building matches Some(id) ==> {
                &&& crate::player::no_building_with_id(old(self).game@.buildings, id) ==> final(self).feedback@ == edit_error_text(CompactEditError::UnknownBuilding(id))
                    && final(self).game@ == old(self).game@
                &&& !crate::player::no_building_with_id(old(self).game@.buildings, id) ==> final(self).feedback@ == configured_feedback(id, recipe)
                    && shows(final(self).snapshot, final(self).game@)
            },
    {
        let building = match self.selected_building {
            Some(building) => building,
            None => {
                let mut feedback = String::new();
                push_str(&mut feedback, "Select a factory before assigning a recipe.");
                proof { reveal_strlit("Select a factory before assigning a recipe."); }
                assert(feedback@ =~= "Select a factory before assigning a recipe."@);
                self.feedback = feedback;
                return;
            },
        };
        match self.game.configure_building(building, recipe) {
            Ok(()) => {
                self.refresh();
                let mut feedback = String::new();
                push_str(&mut feedback, "Factory ");
                push_u64(&mut feedback, building as u64);
                push_str(&mut feedback, " now makes ");
                push_str(&mut feedback, recipe.name());
                push_str(&mut feedback, ".");
                proof {
                    reveal_strlit("Factory ");
                    reveal_strlit(" now makes ");
                    reveal_strlit(".");
                }
                assert(feedback@ =~= configured_feedback(building, recipe));
                self.feedback = feedback;
            },
            Err(error) => self.feedback = error.message(),
        }
    }
}

pub open spec fn pause_text(paused: bool) -> Seq<char> {
    if paused { "Simulation paused. Planning edits remain available."@ } else { "Simulation running. Trucks dispatch automatically."@ }
}

pub open spec fn speed_text(fast: bool) -> Seq<char> {
    if fast { "Simulation speed 4x."@ } else { "Simulation speed 1x."@ }
}

/// Applies a control: switches the tool, sets the selected factory's recipe,
/// pauses or resumes, steps once (pausing), resets the world and the view,
/// switches between normal and fast speed, or zooms in or out a level.
pub fn apply_control(action: ControlAction, host: &mut SimHost, zoom_level: &mut u8)
    requires
        old(host).wf(),
        action == ControlAction::Step ==> old(host).game@.tick < u64::MAX
            && ((old(host).game@.tick + 1) % (crate::player::MARKET_CYCLE_TICKS as int) == 0 ==> old(host).game@.market.cycle + 5 <= u32::MAX),
    ensures
        final(host).wf(),
        action matches ControlAction::SetTool(tool) ==> final(host).tool == tool
            && final(host).feedback@ == tool_label(tool) + " mode."@ && final(host).game@ == old(host).game@,
        action == ControlAction::TogglePause ==> final(host).paused == !old(host).paused
            && final(host).feedback@ == pause_text(final(host).paused) && final(host).game@ == old(host).game@,
        action == ControlAction::Step ==> final(host).paused && final(host).game@.tick == old(host).game@.tick + 1,
        action == ControlAction::Reset ==> final(host).paused && *final(zoom_level) == MAX_ZOOM_LEVEL
            && crate::player::initial(final(host).game@),
        action == ControlAction::ToggleSpeed ==> final(host).fast == !old(host).fast
            && final(host).feedback@ == speed_text(final(host).fast) && final(host).game@ == old(host).game@,
        action == ControlAction::ZoomIn ==> *final(zoom_level) == (if *old(zoom_level) <= MIN_ZOOM_LEVEL + 1 { MIN_ZOOM_LEVEL } else { (*old(zoom_level) - 1) as u8 }),
        action == ControlAction::ZoomOut ==> *final(zoom_level) == (if *old(zoom_level) >= MAX_ZOOM_LEVEL - 1 { MAX_ZOOM_LEVEL } else { (*old(zoom_level) + 1) as u8 }),
        !(action == ControlAction::ZoomIn || action == ControlAction::ZoomOut || action == ControlAction::Reset) ==> *final(zoom_level) == *old(zoom_level),
{
    match action {
        ControlAction::SetTool(tool) => {
            host.tool = tool;
            let mut feedback = String::new();
            push_str(&mut feedback, tool.label());
            push_str(&mut feedback, " mode.");
            proof { reveal_strlit(" mode."); }
            assert(feedback@ =~= tool_label(tool) + " mode."@);
            host.feedback = feedback;
        },
        ControlAction::Configure(recipe) => host.configure_selected(recipe),
        ControlAction::TogglePause => {
            host.paused = !host.paused;
            let mut feedback = String::new();
            if host.paused {
                push_str(&mut feedback, "Simulation paused. Planning edits remain available.");
                proof { reveal_strlit("Simulation paused. Planning edits remain available."); }
            } else {
                push_str(&mut feedback, "Simulation running. Trucks dispatch automatically.");
                proof { reveal_strlit("Simulation running. Trucks dispatch automatically."); }
            }
            assert(feedback@ =~= pause_text(host.paused));
            host.feedback = feedback;
        },
        ControlAction::Step => {
            host.paused = true;
            host.step_once();
        },
        ControlAction::Reset => {
            host.reset();
            *zoom_level = MAX_ZOOM_LEVEL;
        },
        ControlAction::ToggleSpeed => {
            host.fast = !host.fast;
            let mut feedback = String::new();
            if host.fast {
                push_str(&mut feedback, "Simulation speed 4x.");
                proof { reveal_strlit("Simulation speed 4x."); }
            } else {
                push_str(&mut feedback, "Simulation speed 1x.");
                proof { reveal_strlit("Simulation speed 1x."); }
            }
            assert(feedback@ =~= speed_text(host.fast));
            host.feedback = feedback;
        },
        ControlAction::ZoomIn => {
            let lower = zoom_level.saturating_sub(1);
            *zoom_level = if lower < MIN_ZOOM_LEVEL { MIN_ZOOM_LEVEL } else { lower };
        },
        ControlAction::ZoomOut => {
            let higher = zoom_level.saturating_add(1);
            *zoom_level = if higher > MAX_ZOOM_LEVEL { MAX_ZOOM_LEVEL } else { higher };
        },
    }
}

} // verus!
