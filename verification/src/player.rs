//! The compact game: a small freight yard the player plans by hand. Roads are
//! free to draw, buildings need road frontage and an allowance that grows with
//! sales, and trucks move ore and bars along the roads on routes found by a
//! breadth-first search.
use vstd::prelude::*;
use crate::content::{item_name, ItemId, ITEM_COUNT, COPPER_BARS, COPPER_ORE, IRON_BARS, IRON_ORE};
use crate::node::{position_less, position_lt, GridPosition};
use crate::tally::{lemma_sum_item_le, lemma_sum_le, lemma_sum_pointwise, lemma_sum_push, lemma_sum_update, sum_of};
use crate::text::{decimal, push_i64, push_str, push_u64, signed_decimal};
use crate::world::copy_cells;

verus! {

pub const COMPACT_WORLD_WIDTH: i32 = 16;
pub const COMPACT_WORLD_HEIGHT: i32 = 16;
pub const COMPACT_SAVE_VERSION: u32 = 1;
pub const MARKET_CYCLE_TICKS: u64 = 20;
pub const TRUCK_CAPACITY: u32 = 10;

/// The name under which the compact world is reported.
pub fn compact_scenario_name() -> (s: &'static str)
    ensures
        s@ == "Compact Freight Yard"@,
{
    "Compact Freight Yard"
}

/// The sales after which each further building is allowed, in order.
pub open spec fn unlock_threshold(k: int) -> Option<u32> {
    if k == 0 { Some(20u32) } else if k == 1 { Some(50u32) } else if k == 2 { Some(90u32) } else if k == 3 { Some(140u32) } else { None }
}

/// The sales at which the `k`th further building is allowed.
pub fn building_unlock_sales(k: usize) -> (r: Option<u32>)
    ensures
        r == unlock_threshold(k as int),
{
    if k == 0 { Some(20) } else if k == 1 { Some(50) } else if k == 2 { Some(90) } else if k == 3 { Some(140) } else { None }
}

/// What a building can be set to make.
#[derive(Copy, Clone, Debug, PartialEq, Eq, Structural)]
pub enum CompactRecipe {
    IronBars,
    CopperBars,
}

pub open spec fn recipe_input(recipe: CompactRecipe) -> ItemId {
    match recipe {
        CompactRecipe::IronBars => ItemId::IronOre,
        CompactRecipe::CopperBars => ItemId::CopperOre,
    }
}

pub open spec fn recipe_output(recipe: CompactRecipe) -> ItemId {
    match recipe {
        CompactRecipe::IronBars => ItemId::IronBars,
        CompactRecipe::CopperBars => ItemId::CopperBars,
    }
}

pub open spec fn recipe_name(recipe: CompactRecipe) -> Seq<char> {
    match recipe {
        CompactRecipe::IronBars => "Iron bars"@,
        CompactRecipe::CopperBars => "Copper bars"@,
    }
}

impl CompactRecipe {
    /// The ore the recipe consumes.
    pub fn input(self) -> (r: ItemId)
        ensures
            r == recipe_input(self),
    {
        match self {
            CompactRecipe::IronBars => IRON_ORE,
            CompactRecipe::CopperBars => COPPER_ORE,
        }
    }

    /// The bars the recipe makes.
    pub fn output(self) -> (r: ItemId)
        ensures
            r == recipe_output(self),
    {
        match self {
            CompactRecipe::IronBars => IRON_BARS,
            CompactRecipe::CopperBars => COPPER_BARS,
        }
    }

    /// The name shown to the player.
    pub fn name(self) -> (r: &'static str)
        ensures
            r@ == recipe_name(self),
    {
        match self {
            CompactRecipe::IronBars => "Iron bars",
            CompactRecipe::CopperBars => "Copper bars",
        }
    }
}

#[derive(Clone, Debug, PartialEq, Eq)]
pub struct CompactDepositSnapshot {
    pub position: GridPosition,
    pub item: ItemId,
    pub remaining: u32,
    pub stockpile: u32,
}

#[derive(Clone, Debug, PartialEq, Eq)]
pub struct CompactBuildingSnapshot {
    pub id: u16,
    pub position: GridPosition,
    pub recipe: Option<CompactRecipe>,
    pub input_stock: u32,
    pub output_stock: u32,
    pub craft_progress: u8,
    pub road_connected: bool,
}

/// What a truck is doing.
#[derive(Copy, Clone, Debug, PartialEq, Eq, Structural)]
pub enum CompactTruckTask {
    Idle,
    CollectRaw { deposit: u16, building: u16 },
    DeliverRaw { building: u16 },
    CollectOutput { building: u16 },
    DeliverToWarehouse,
}

#[derive(Clone, Debug, PartialEq, Eq)]
pub struct CompactTruckSnapshot {
    pub id: u16,
    pub position: GridPosition,
    pub cargo_item: Option<ItemId>,
    pub cargo_quantity: u32,
    pub task: CompactTruckTask,
    pub route: Vec<GridPosition>,
}

/// The market's state: its cycle, the demand left in this cycle and what was
/// sold so far.
#[derive(Copy, Clone, Debug, PartialEq, Eq, Structural)]
pub struct CompactMarketSnapshot {
    pub cycle: u32,
    pub demand_per_cycle: u32,
    pub remaining_demand: u32,
    pub sold_total: u32,
    pub revenue: u32,
}

#[derive(Clone, Debug, PartialEq, Eq)]
pub struct CompactAllowanceSnapshot {
    pub used: u16,
    pub limit: u16,
    pub next_unlock_at_sales: Option<u32>,
}

/// What the player sees of the compact world. Roads are listed in position
/// order and the warehouse stock in item order.
#[derive(Clone, Debug, PartialEq, Eq)]
pub struct CompactSnapshot {
    pub tick: u64,
    pub name: &'static str,
    pub width: i32,
    pub height: i32,
    pub warehouse_position: GridPosition,
    pub roads: Vec<GridPosition>,
    pub deposits: Vec<CompactDepositSnapshot>,
    pub buildings: Vec<CompactBuildingSnapshot>,
    pub trucks: Vec<CompactTruckSnapshot>,
    pub warehouse_stock: Vec<(ItemId, u32)>,
    pub market: CompactMarketSnapshot,
    pub allowance: CompactAllowanceSnapshot,
    pub events: Vec<String>,
}

/// Why an edit of the compact world was refused.
#[derive(Clone, Debug, PartialEq, Eq, Structural)]
pub enum CompactEditError {
    OutOfBounds(GridPosition),
    CellOccupied(GridPosition),
    RoadInUse(GridPosition),
    RoadRequired(GridPosition),
    BuildingAllowanceExhausted { used: u16, limit: u16 },
    UnknownBuilding(u16),
}

/// A cell given as `x,y`.
pub open spec fn cell_text(p: GridPosition) -> Seq<char> {
    signed_decimal(p.x as int) + ","@ + signed_decimal(p.y as int)
}

/// What the player is told of a refused edit.
pub open spec fn edit_error_text(e: CompactEditError) -> Seq<char> {
    match e {
        CompactEditError::OutOfBounds(p) => "cell "@ + cell_text(p) + " is outside the compact world"@,
        CompactEditError::CellOccupied(p) => "cell "@ + cell_text(p) + " is occupied"@,
        CompactEditError::RoadInUse(p) => "road "@ + cell_text(p) + " is in use by a truck"@,
        CompactEditError::RoadRequired(p) => "building at "@ + cell_text(p) + " needs road frontage"@,
        CompactEditError::BuildingAllowanceExhausted { used, limit } =>
            "building allowance exhausted ("@ + decimal(used as nat) + "/"@ + decimal(limit as nat) + ")"@,
        CompactEditError::UnknownBuilding(id) => "unknown building "@ + decimal(id as nat),
    }
}

fn push_cell(s: &mut String, p: GridPosition)
    ensures
        final(s)@ == old(s)@ + cell_text(p),
{
    push_i64(s, p.x as i64);
    push_str(s, ",");
    push_i64(s, p.y as i64);
    proof { reveal_strlit(","); }
    assert(final(s)@ =~= old(s)@ + cell_text(p));
}

impl CompactEditError {
    /// The message for the player.
    pub fn message(&self) -> (r: String)
        ensures
            r@ == edit_error_text(*self),
    {
        let mut s = String::new();
        match self {
            CompactEditError::OutOfBounds(p) => {
                push_str(&mut s, "cell ");
                push_cell(&mut s, *p);
                push_str(&mut s, " is outside the compact world");
            },
            CompactEditError::CellOccupied(p) => {
                push_str(&mut s, "cell ");
                push_cell(&mut s, *p);
                push_str(&mut s, " is occupied");
            },
            CompactEditError::RoadInUse(p) => {
                push_str(&mut s, "road ");
                push_cell(&mut s, *p);
                push_str(&mut s, " is in use by a truck");
            },
            CompactEditError::RoadRequired(p) => {
                push_str(&mut s, "building at ");
                push_cell(&mut s, *p);
                push_str(&mut s, " needs road frontage");
            },
            CompactEditError::BuildingAllowanceExhausted { used, limit } => {
                push_str(&mut s, "building allowance exhausted (");
                push_u64(&mut s, *used as u64);
                push_str(&mut s, "/");
                push_u64(&mut s, *limit as u64);
                push_str(&mut s, ")");
            },
            CompactEditError::UnknownBuilding(id) => {
                push_str(&mut s, "unknown building ");
                push_u64(&mut s, *id as u64);
            },
        }
        assert(s@ =~= edit_error_text(*self));
        s
    }
}

/// Why a saved game was refused.
#[derive(Clone, Debug, PartialEq, Eq)]
pub enum CompactSaveError {
    UnsupportedVersion { found: u32, supported: u32 },
    Malformed(String),
}

pub open spec fn save_error_text(e: CompactSaveError) -> Seq<char> {
    match e {
        CompactSaveError::UnsupportedVersion { found, supported } =>
            "save format version "@ + decimal(found as nat) + " is not supported ("@ + decimal(supported as nat) + ")"@,
        CompactSaveError::Malformed(detail) => "save is malformed: "@ + detail@,
    }
}

impl CompactSaveError {
    /// The message for the player.
    pub fn message(&self) -> (r: String)
        ensures
            r@ == save_error_text(*self),
    {
        let mut s = String::new();
        match self {
            CompactSaveError::UnsupportedVersion { found, supported } => {
                push_str(&mut s, "save format version ");
                push_u64(&mut s, *found as u64);
                push_str(&mut s, " is not supported (");
                push_u64(&mut s, *supported as u64);
                push_str(&mut s, ")");
            },
            CompactSaveError::Malformed(detail) => {
                push_str(&mut s, "save is malformed: ");
                push_str(&mut s, detail.as_str());
            },
        }
        assert(s@ =~= save_error_text(*self));
        s
    }
}

/// Whether a save of format `found` can be read: only the current format is.
pub fn check_save_version(found: u32) -> (r: Result<(), CompactSaveError>)
    ensures
        found == COMPACT_SAVE_VERSION <==> r is Ok,
        r is Err ==> r == Err::<(), CompactSaveError>(CompactSaveError::UnsupportedVersion { found, supported: COMPACT_SAVE_VERSION }),
{
    if found != COMPACT_SAVE_VERSION {
        return Err(CompactSaveError::UnsupportedVersion { found, supported: COMPACT_SAVE_VERSION });
    }
    Ok(())
}

/// A deposit of ore and the ore mined from it that waits for a truck.
#[derive(Copy, Clone, Debug, PartialEq, Eq, Structural)]
pub struct CompactDeposit {
    pub position: GridPosition,
    pub item: ItemId,
    pub remaining: u32,
    pub stockpile: u32,
}

/// A building, the recipe it is set to, its stock and the progress of its
/// current batch.
#[derive(Copy, Clone, Debug, PartialEq, Eq, Structural)]
pub struct CompactBuilding {
    pub id: u16,
    pub position: GridPosition,
    pub recipe: Option<CompactRecipe>,
    pub input_stock: u32,
    pub output_stock: u32,
    pub craft_progress: u8,
}

/// A truck, its cargo, its task and the cells it still has to drive, nearest
/// first.
#[derive(Clone, Debug, PartialEq, Eq)]
pub struct CompactTruck {
    pub id: u16,
    pub position: GridPosition,
    pub cargo_item: Option<ItemId>,
    pub cargo_quantity: u32,
    pub task: CompactTruckTask,
    pub route: Vec<GridPosition>,
}

/// The compact game.
#[derive(Clone, Debug)]
pub struct CompactGame {
    tick: u64,
    roads: Vec<GridPosition>,
    deposits: Vec<CompactDeposit>,
    buildings: Vec<CompactBuilding>,
    trucks: Vec<CompactTruck>,
    warehouse_stock: Vec<Option<u32>>,
    market: CompactMarketSnapshot,
    building_limit: u16,
    events: Vec<String>,
}

/// The whole state of a compact game, as a save holds it. The warehouse stock
/// lists each item that has an entry once, in item order.
#[derive(Clone, Debug)]
pub struct CompactGameParts {
    pub tick: u64,
    pub roads: Vec<GridPosition>,
    pub deposits: Vec<CompactDeposit>,
    pub buildings: Vec<CompactBuilding>,
    pub trucks: Vec<CompactTruck>,
    pub warehouse_stock: Vec<(ItemId, u32)>,
    pub market: CompactMarketSnapshot,
    pub building_limit: u16,
    pub events: Vec<String>,
}

/// The compact game as a value.
pub ghost struct CompactModel {
    pub tick: u64,
    pub roads: Set<GridPosition>,
    pub deposits: Seq<CompactDeposit>,
    pub buildings: Seq<CompactBuilding>,
    pub trucks: Seq<CompactTruck>,
    /// The warehouse entry of each item, by catalog position.
    pub stock: Seq<Option<u32>>,
    pub market: CompactMarketSnapshot,
    pub building_limit: u16,
    pub events: Seq<Seq<char>>,
}

pub open spec fn texts(v: Seq<String>) -> Seq<Seq<char>> {
    v.map_values(|s: String| s@)
}

impl View for CompactGame {
    type V = CompactModel;

    closed spec fn view(&self) -> CompactModel {
        CompactModel {
            tick: self.tick,
            roads: self.roads@.to_set(),
            deposits: self.deposits@,
            buildings: self.buildings@,
            trucks: self.trucks@,
            stock: self.warehouse_stock@,
            market: self.market,
            building_limit: self.building_limit,
            events: texts(self.events@),
        }
    }
}

pub open spec fn warehouse_position() -> GridPosition {
    GridPosition { x: 8, y: 8 }
}

/// Whether a cell lies inside the compact world.
pub open spec fn in_bounds(p: GridPosition) -> bool {
    0 <= p.x < COMPACT_WORLD_WIDTH && 0 <= p.y < COMPACT_WORLD_HEIGHT
}

/// Whether two cells share a side.
pub open spec fn adjacent(a: GridPosition, b: GridPosition) -> bool {
    ||| a.x == b.x && (a.y == b.y + 1 || b.y == a.y + 1)
    ||| a.y == b.y && (a.x == b.x + 1 || b.x == a.x + 1)
}

/// Whether the warehouse, a deposit or a building stands on a cell.
pub open spec fn object_at(m: CompactModel, p: GridPosition) -> bool {
    ||| p == warehouse_position()
    ||| exists|i: int| 0 <= i < m.deposits.len() && (#[trigger] m.deposits[i]).position == p
    ||| exists|i: int| 0 <= i < m.buildings.len() && (#[trigger] m.buildings[i]).position == p
}

/// Whether a road runs beside a cell.
pub open spec fn has_frontage(roads: Set<GridPosition>, p: GridPosition) -> bool {
    exists|q: GridPosition| #[trigger] roads.contains(q) && adjacent(p, q)
}

/// Whether a truck stands on or will drive over a cell.
pub open spec fn road_in_use(m: CompactModel, p: GridPosition) -> bool {
    exists|i: int| 0 <= i < m.trucks.len() && ((#[trigger] m.trucks[i]).position == p || m.trucks[i].route@.contains(p))
}

/// Why a road cannot be laid on a cell, if it can't.
pub open spec fn road_refusal(m: CompactModel, p: GridPosition) -> Option<CompactEditError> {
    if !in_bounds(p) {
        Some(CompactEditError::OutOfBounds(p))
    } else if object_at(m, p) {
        Some(CompactEditError::CellOccupied(p))
    } else {
        None
    }
}

/// Why a road cannot be lifted from a cell, if it can't.
pub open spec fn removal_refusal(m: CompactModel, p: GridPosition) -> Option<CompactEditError> {
    if !in_bounds(p) {
        Some(CompactEditError::OutOfBounds(p))
    } else if road_in_use(m, p) {
        Some(CompactEditError::RoadInUse(p))
    } else {
        None
    }
}

/// Why a building cannot be placed on a cell, if it can't.
pub open spec fn building_refusal(m: CompactModel, p: GridPosition) -> Option<CompactEditError> {
    if !in_bounds(p) {
        Some(CompactEditError::OutOfBounds(p))
    } else if object_at(m, p) || m.roads.contains(p) {
        Some(CompactEditError::CellOccupied(p))
    } else if !has_frontage(m.roads, p) {
        Some(CompactEditError::RoadRequired(p))
    } else if m.buildings.len() >= m.building_limit {
        Some(CompactEditError::BuildingAllowanceExhausted { used: m.buildings.len() as u16, limit: m.building_limit })
    } else {
        None
    }
}

/// Cells in position order, each once.
pub open spec fn sorted_cells(s: Seq<GridPosition>) -> bool {
    forall|i: int, j: int| 0 <= i < j < s.len() ==> position_less(#[trigger] s[i], #[trigger] s[j])
}

pub open spec fn road_placed_text(p: GridPosition) -> Seq<char> {
    "road placed "@ + cell_text(p)
}

pub open spec fn road_removed_text(p: GridPosition) -> Seq<char> {
    "road removed "@ + cell_text(p)
}

pub open spec fn building_placed_text(id: u16, p: GridPosition) -> Seq<char> {
    "building "@ + decimal(id as nat) + " placed "@ + cell_text(p)
}

pub open spec fn configured_text(id: u16, recipe: CompactRecipe) -> Seq<char> {
    "building "@ + decimal(id as nat) + " configured for "@ + recipe_name(recipe)
}

/// The id the next building gets: one more than the last one's, or zero.
pub open spec fn next_building_id(buildings: Seq<CompactBuilding>) -> u16 {
    if buildings.len() == 0 {
        0
    } else if buildings.last().id == u16::MAX {
        u16::MAX
    } else {
        (buildings.last().id + 1) as u16
    }
}

/// Whether `i` is the first building with id `id`.
pub open spec fn first_with_id(buildings: Seq<CompactBuilding>, id: u16, i: int) -> bool {
    &&& 0 <= i < buildings.len()
    &&& buildings[i].id == id
    &&& forall|j: int| 0 <= j < i ==> (#[trigger] buildings[j]).id != id
}

/// Whether no building has id `id`.
pub open spec fn no_building_with_id(buildings: Seq<CompactBuilding>, id: u16) -> bool {
    forall|j: int| 0 <= j < buildings.len() ==> (#[trigger] buildings[j]).id != id
}

/// Whether a path drives over roads one cell at a time, starting beside
/// `start`.
pub open spec fn road_walk(roads: Set<GridPosition>, start: GridPosition, path: Seq<GridPosition>) -> bool {
    forall|i: int| 0 <= i < path.len() ==> roads.contains(#[trigger] path[i])
        && adjacent(if i == 0 { start } else { path[i - 1] }, path[i])
}

/// How much a quantity of an item weighs in the goods measure: bars weigh
/// thirty-three, and everything else, ore included, weighs a hundred and ten,
/// so three ore weigh as much as the ten bars they make.
pub open spec fn item_weight(item: Option<ItemId>) -> nat {
    match item {
        Some(ItemId::IronBars) => 33,
        Some(ItemId::CopperBars) => 33,
        _ => 110,
    }
}

pub open spec fn deposit_weight(d: CompactDeposit) -> nat {
    (110 * (d.remaining + d.stockpile)) as nat
}

/// A batch in progress weighs as much as the ore it took.
pub open spec fn building_weight(b: CompactBuilding) -> nat {
    (110 * b.input_stock + 33 * b.output_stock + (if b.craft_progress > 0 { 330int } else { 0int })) as nat
}

pub open spec fn truck_weight(t: CompactTruck) -> nat {
    (t.cargo_quantity * item_weight(t.cargo_item)) as nat
}

pub open spec fn deposit_weights() -> spec_fn(CompactDeposit) -> nat {
    |d: CompactDeposit| deposit_weight(d)
}

pub open spec fn building_weights() -> spec_fn(CompactBuilding) -> nat {
    |b: CompactBuilding| building_weight(b)
}

pub open spec fn truck_weights() -> spec_fn(CompactTruck) -> nat {
    |t: CompactTruck| truck_weight(t)
}

pub open spec fn entry_amount(e: Option<u32>) -> nat {
    match e {
        Some(n) => n as nat,
        None => 0,
    }
}

/// The weight of the warehouse stock, whose entries are by catalog position.
pub open spec fn stock_weight(stock: Seq<Option<u32>>) -> nat
    decreases stock.len(),
{
    if stock.len() == 0 {
        0
    } else {
        stock_weight(stock.drop_last())
            + entry_amount(stock.last()) * item_weight(Some(crate::content::item_at((stock.len() - 1) as nat)))
    }
}

/// The weight of everything in the compact world, sold goods included: sold
/// bars count three for each bar and each unit of revenue.
pub open spec fn goods_weight(m: CompactModel) -> nat {
    sum_of(m.deposits, deposit_weights()) + sum_of(m.buildings, building_weights())
        + sum_of(m.trucks, truck_weights()) + stock_weight(m.stock)
        + (3 * m.market.revenue + 3 * m.market.sold_total) as nat
}

/// The goods measure a game may reach without its counters overflowing.
pub open spec fn goods_limit() -> nat {
    3 * (u32::MAX as nat)
}

fn contains_cell(cells: &Vec<GridPosition>, p: GridPosition) -> (r: bool)
    ensures
        r == cells@.contains(p),
{
    let mut k: usize = 0;
    while k < cells.len()
        invariant
            k <= cells@.len(),
            forall|j: int| 0 <= j < k ==> cells@[j] != p,
        decreases cells@.len() - k,
    {
        if cells[k] == p {
            return true;
        }
        k = k + 1;
    }
    false
}

fn text_of(piece: &str) -> (r: String)
    ensures
        r@ == piece@,
{
    let mut s = String::new();
    push_str(&mut s, piece);
    assert(s@ =~= piece@);
    s
}

/// The first position at which `p` belongs in sorted cells, and whether `p`
/// is already there.
fn sorted_slot(cells: &Vec<GridPosition>, p: GridPosition) -> (r: (usize, bool))
    requires
        sorted_cells(cells@),
    ensures
        r.0 <= cells@.len(),
        forall|j: int| 0 <= j < r.0 ==> position_less(#[trigger] cells@[j], p),
        r.0 < cells@.len() ==> !position_less(cells@[r.0 as int], p),
        r.1 == (r.0 < cells@.len() && cells@[r.0 as int] == p),
        r.1 == cells@.contains(p),
{
    let mut k: usize = 0;
    while k < cells.len() && position_lt(cells[k], p)
        invariant
            k <= cells@.len(),
            sorted_cells(cells@),
            forall|j: int| 0 <= j < k ==> position_less(#[trigger] cells@[j], p),
        decreases cells@.len() - k,
    {
        k = k + 1;
    }
    let found = k < cells.len() && cells[k] == p;
    proof {
        if !found && cells@.contains(p) {
            let j = choose|j: int| 0 <= j < cells@.len() && cells@[j] == p;
            if j >= k {
                if j > k {
                    assert(position_less(cells@[k as int], cells@[j]));
                }
            }
        }
    }
    (k, found)
}

/// The four cells beside `p`: above, left, right and below.
pub open spec fn neighbor(p: GridPosition, k: int) -> GridPosition {
    if k == 0 {
        GridPosition { x: p.x, y: (p.y - 1) as i32 }
    } else if k == 1 {
        GridPosition { x: (p.x - 1) as i32, y: p.y }
    } else if k == 2 {
        GridPosition { x: (p.x + 1) as i32, y: p.y }
    } else {
        GridPosition { x: p.x, y: (p.y + 1) as i32 }
    }
}

/// Whether the cells beside `p` can be named without overflow.
pub open spec fn inner(p: GridPosition) -> bool {
    i32::MIN < p.x < i32::MAX && i32::MIN < p.y < i32::MAX
}

pub proof fn lemma_neighbors(p: GridPosition, q: GridPosition)
    requires
        inner(p),
    ensures
        adjacent(p, q) <==> (q == neighbor(p, 0) || q == neighbor(p, 1) || q == neighbor(p, 2) || q == neighbor(p, 3)),
{
}

fn cardinal_neighbors(p: GridPosition) -> (r: [GridPosition; 4])
    requires
        inner(p),
    ensures
        forall|k: int| 0 <= k < 4 ==> #[trigger] r@[k] == neighbor(p, k),
{
    [
        GridPosition { x: p.x, y: p.y - 1 },
        GridPosition { x: p.x - 1, y: p.y },
        GridPosition { x: p.x + 1, y: p.y },
        GridPosition { x: p.x, y: p.y + 1 },
    ]
}

/// The state of a new compact game.
pub open spec fn initial(m: CompactModel) -> bool {
    &&& m.tick == 0
    &&& m.roads == set![GridPosition { x: 7, y: 9 }, GridPosition { x: 8, y: 9 }, GridPosition { x: 9, y: 9 }]
    &&& m.deposits == seq![
            CompactDeposit { position: GridPosition { x: 2, y: 2 }, item: ItemId::IronOre, remaining: 600, stockpile: 0 },
            CompactDeposit { position: GridPosition { x: 13, y: 3 }, item: ItemId::CopperOre, remaining: 600, stockpile: 0 },
            CompactDeposit { position: GridPosition { x: 2, y: 13 }, item: ItemId::IronOre, remaining: 600, stockpile: 0 },
            CompactDeposit { position: GridPosition { x: 13, y: 12 }, item: ItemId::CopperOre, remaining: 600, stockpile: 0 },
        ]
    &&& m.buildings.len() == 0
    &&& m.trucks.len() == 3
    &&& forall|k: int| 0 <= k < 3 ==> {
            let t = #[trigger] m.trucks[k];
            &&& t.id == k
            &&& t.position == GridPosition { x: (7 + k) as i32, y: 9 }
            &&& t.cargo_item is None
            &&& t.cargo_quantity == 0
            &&& t.task == CompactTruckTask::Idle
            &&& t.route@.len() == 0
        }
    &&& m.stock == Seq::new(ITEM_COUNT as nat, |k: int| None::<u32>)
    &&& m.market == CompactMarketSnapshot { cycle: 0, demand_per_cycle: 4, remaining_demand: 4, sold_total: 0, revenue: 0 }
    &&& m.building_limit == 2
    &&& m.events.len() == 0
}

/// Two states that differ at most in their roads and their events.
pub open spec fn same_but_roads(a: CompactModel, b: CompactModel) -> bool {
    &&& a.tick == b.tick
    &&& a.deposits == b.deposits
    &&& a.buildings == b.buildings
    &&& a.trucks == b.trucks
    &&& a.stock == b.stock
    &&& a.market == b.market
    &&& a.building_limit == b.building_limit
}

/// Two states that differ at most in their buildings and their events.
pub open spec fn same_but_buildings(a: CompactModel, b: CompactModel) -> bool {
    &&& a.tick == b.tick
    &&& a.roads == b.roads
    &&& a.deposits == b.deposits
    &&& a.trucks == b.trucks
    &&& a.stock == b.stock
    &&& a.market == b.market
    &&& a.building_limit == b.building_limit
}

pub open spec fn logged(before: Seq<Seq<char>>, after: Seq<Seq<char>>, happened: bool, line: Seq<char>) -> bool {
    after == (if happened { before.push(line) } else { before })
}

proof fn lemma_texts_push(v: Seq<String>, s: String)
    ensures
        texts(v.push(s)) == texts(v).push(s@),
{
    assert(texts(v.push(s)) =~= texts(v).push(s@));
}

/// Every truck stands on a road, and its route drives over roads from there.
#[verifier::opaque]
pub open spec fn trucks_on_roads(roads: Set<GridPosition>, trucks: Seq<CompactTruck>) -> bool {
    forall|i: int| 0 <= i < trucks.len() ==> {
        let t = #[trigger] trucks[i];
        &&& roads.contains(t.position)
        &&& road_walk(roads, t.position, t.route@)
    }
}

impl CompactGame {
    /// The invariant of a compact game: roads in position order inside the
    /// world, buildings and deposits inside the world, no more buildings than
    /// allowed, a warehouse entry slot per catalog item, trucks on roads with
    /// routes that drive over roads from where they stand, and a goods
    /// measure below the limit.
    pub closed spec fn wf(&self) -> bool {
        &&& sorted_cells(self.roads@)
        &&& forall|i: int| 0 <= i < self.roads@.len() ==> in_bounds(#[trigger] self.roads@[i])
        &&& forall|i: int| 0 <= i < self.deposits@.len() ==> in_bounds((#[trigger] self.deposits@[i]).position)
        &&& forall|i: int| 0 <= i < self.buildings@.len() ==> in_bounds((#[trigger] self.buildings@[i]).position)
        &&& self.deposits@.len() <= 65536
        &&& self.buildings@.len() <= self.building_limit
        &&& self.warehouse_stock@.len() == ITEM_COUNT
        &&& trucks_on_roads(self.roads@.to_set(), self.trucks@)
        &&& goods_weight(self@) <= goods_limit()
    }

    pub proof fn lemma_wf_roads(&self)
        requires
            self.wf(),
        ensures
            forall|p: GridPosition| #[trigger] self@.roads.contains(p) ==> in_bounds(p),
            forall|i: int| 0 <= i < self@.trucks.len() ==> {
                let t = #[trigger] self@.trucks[i];
                &&& self@.roads.contains(t.position)
                &&& road_walk(self@.roads, t.position, t.route@)
            },
            forall|i: int| 0 <= i < self@.deposits.len() ==> in_bounds((#[trigger] self@.deposits[i]).position),
            forall|i: int| 0 <= i < self@.buildings.len() ==> in_bounds((#[trigger] self@.buildings[i]).position),
            self@.buildings.len() <= self@.building_limit,
            self@.deposits.len() <= 65536,
            self@.stock.len() == ITEM_COUNT,
            goods_weight(self@) <= goods_limit(),
    {
        reveal(trucks_on_roads);
    }

    /// The tick and the market cycle.
    pub fn counters(&self) -> (r: (u64, u32))
        ensures
            r == (self@.tick, self@.market.cycle),
    {
        (self.tick, self.market.cycle)
    }

    /// Where the warehouse stands.
    pub fn warehouse_position() -> (r: GridPosition)
        ensures
            r == warehouse_position(),
    {
        GridPosition { x: 8, y: 8 }
    }

    /// A new game: three roads beside the warehouse, four deposits, three
    /// idle trucks on the roads, a market asking for four bars and room for
    /// two buildings.
    pub fn new() -> (r: Self)
        ensures
            r.wf(),
            initial(r@),
    {
        proof {
            reveal(trucks_on_roads);
        }
        let roads = vec![GridPosition { x: 7, y: 9 }, GridPosition { x: 8, y: 9 }, GridPosition { x: 9, y: 9 }];
        let deposits = vec![
            CompactDeposit { position: GridPosition { x: 2, y: 2 }, item: IRON_ORE, remaining: 600, stockpile: 0 },
            CompactDeposit { position: GridPosition { x: 13, y: 3 }, item: COPPER_ORE, remaining: 600, stockpile: 0 },
            CompactDeposit { position: GridPosition { x: 2, y: 13 }, item: IRON_ORE, remaining: 600, stockpile: 0 },
            CompactDeposit { position: GridPosition { x: 13, y: 12 }, item: COPPER_ORE, remaining: 600, stockpile: 0 },
        ];
        let mut trucks: Vec<CompactTruck> = Vec::new();
        let mut k: u16 = 0;
        while k < 3
            invariant
                k <= 3,
                trucks@.len() == k,
                forall|j: int| 0 <= j < k ==> {
                    let t = #[trigger] trucks@[j];
                    &&& t.id == j
                    &&& t.position == GridPosition { x: (7 + j) as i32, y: 9 }
                    &&& t.cargo_item is None
                    &&& t.cargo_quantity == 0
                    &&& t.task == CompactTruckTask::Idle
                    &&& t.route@.len() == 0
                },
            decreases 3 - k,
        {
            trucks.push(CompactTruck {
                id: k,
                position: GridPosition { x: 7 + k as i32, y: 9 },
                cargo_item: None,
                cargo_quantity: 0,
                task: CompactTruckTask::Idle,
                route: Vec::new(),
            });
            k = k + 1;
        }
        let mut stock: Vec<Option<u32>> = Vec::new();
        while stock.len() < ITEM_COUNT
            invariant
                stock@.len() <= ITEM_COUNT,
                forall|j: int| 0 <= j < stock@.len() ==> stock@[j] is None,
            decreases ITEM_COUNT - stock@.len(),
        {
            stock.push(None);
        }
        let r = CompactGame {
            tick: 0,
            roads,
            deposits,
            buildings: Vec::new(),
            trucks,
            warehouse_stock: stock,
            market: CompactMarketSnapshot { cycle: 0, demand_per_cycle: 4, remaining_demand: 4, sold_total: 0, revenue: 0 },
            building_limit: 2,
            events: Vec::new(),
        };
        proof {
            let m = r@;
            assert(m.roads =~= set![GridPosition { x: 7, y: 9 }, GridPosition { x: 8, y: 9 }, GridPosition { x: 9, y: 9 }]) by {
                assert(r.roads@[0] == GridPosition { x: 7, y: 9 });
                assert(r.roads@[1] == GridPosition { x: 8, y: 9 });
                assert(r.roads@[2] == GridPosition { x: 9, y: 9 });
            }
            assert(m.stock =~= Seq::new(ITEM_COUNT as nat, |k: int| None::<u32>));
            assert(m.events =~= Seq::<Seq<char>>::empty());
            reveal_with_fuel(sum_of, 5);
            reveal_with_fuel(stock_weight, 15);
            assert(sum_of(m.deposits, deposit_weights()) == 264000);
            assert(sum_of(m.buildings, building_weights()) == 0);
            assert(sum_of(m.trucks, truck_weights()) == 0);
            assert(stock_weight(m.stock) == 0);
            assert forall|i: int| 0 <= i < r.trucks@.len() implies {
                let t = #[trigger] r.trucks@[i];
                &&& r.roads@.contains(t.position)
                &&& road_walk(r.roads@.to_set(), t.position, t.route@)
            } by {
                assert(r.roads@[i] == r.trucks@[i].position);
                assert(r.trucks@[i].route@.len() == 0);
            }
        }
        r
    }

    fn validate_cell(p: GridPosition) -> (r: Result<(), CompactEditError>)
        ensures
            r is Ok <==> in_bounds(p),
            r is Err ==> r == Err::<(), CompactEditError>(CompactEditError::OutOfBounds(p)),
    {
        if p.x < 0 || p.y < 0 || p.x >= COMPACT_WORLD_WIDTH || p.y >= COMPACT_WORLD_HEIGHT {
            return Err(CompactEditError::OutOfBounds(p));
        }
        Ok(())
    }

    fn object_occupies(&self, p: GridPosition) -> (r: bool)
        ensures
            r == object_at(self@, p),
    {
        if p == CompactGame::warehouse_position() {
            return true;
        }
        let mut k: usize = 0;
        while k < self.deposits.len()
            invariant
                k <= self.deposits@.len(),
                forall|j: int| 0 <= j < k ==> (#[trigger] self.deposits@[j]).position != p,
            decreases self.deposits@.len() - k,
        {
            if self.deposits[k].position == p {
                return true;
            }
            k = k + 1;
        }
        let mut k: usize = 0;
        while k < self.buildings.len()
            invariant
                k <= self.buildings@.len(),
                forall|j: int| 0 <= j < k ==> (#[trigger] self.buildings@[j]).position != p,
            decreases self.buildings@.len() - k,
        {
            if self.buildings[k].position == p {
                return true;
            }
            k = k + 1;
        }
        false
    }

    fn has_road_frontage(&self, p: GridPosition) -> (r: bool)
        requires
            inner(p),
        ensures
            r == has_frontage(self@.roads, p),
    {
        let around = cardinal_neighbors(p);
        let mut k: usize = 0;
        while k < 4
            invariant
                k <= 4,
                inner(p),
                forall|j: int| 0 <= j < 4 ==> #[trigger] around@[j] == neighbor(p, j),
                forall|j: int| 0 <= j < k ==> !self.roads@.contains(neighbor(p, j)),
            decreases 4 - k,
        {
            if contains_cell(&self.roads, around[k]) {
                proof {
                    assert(self@.roads.contains(neighbor(p, k as int)));
                    lemma_neighbors(p, neighbor(p, k as int));
                }
                return true;
            }
            k = k + 1;
        }
        proof {
            assert forall|q: GridPosition| #[trigger] self@.roads.contains(q) implies !adjacent(p, q) by {
                lemma_neighbors(p, q);
            }
        }
        false
    }

    /// Draws a road on an empty cell. Roads are free: the result tells whether
    /// the road is new, and drawing one twice changes nothing.
    pub fn place_road(&mut self, position: GridPosition) -> (r: Result<bool, CompactEditError>)
        requires
            old(self).wf(),
        ensures
            final(self).wf(),
            !in_bounds(position) ==> r == Err::<bool, CompactEditError>(CompactEditError::OutOfBounds(position)),
            in_bounds(position) && object_at(old(self)@, position) ==> r == Err::<bool, CompactEditError>(CompactEditError::CellOccupied(position)),
            r is Err ==> final(self)@ == old(self)@,
            in_bounds(position) && !object_at(old(self)@, position) ==> r == Ok::<bool, CompactEditError>(!old(self)@.roads.contains(position)),
            r is Ok ==> {
                &&& final(self)@.roads == old(self)@.roads.insert(position)
                &&& same_but_roads(final(self)@, old(self)@)
                &&& logged(old(self)@.events, final(self)@.events, !old(self)@.roads.contains(position), road_placed_text(position))
            },
    {
        proof {
            reveal(trucks_on_roads);
        }
        CompactGame::validate_cell(position)?;
        if self.object_occupies(position) {
            return Err(CompactEditError::CellOccupied(position));
        }
        let (slot, present) = sorted_slot(&self.roads, position);
        if present {
            proof {
                assert(self@.roads.insert(position) =~= self@.roads);
            }
            return Ok(false);
        }
        let ghost old_roads = self.roads@;
        self.roads.insert(slot, position);
        let mut line = String::new();
        push_str(&mut line, "road placed ");
        push_cell(&mut line, position);
        proof {
            lemma_texts_push(self.events@, line);
            reveal_strlit("road placed ");
        }
        self.events.push(line);
        proof {
            let new_roads = self.roads@;
            assert(new_roads =~= old_roads.insert(slot as int, position));
            assert forall|i: int, j: int| 0 <= i < j < new_roads.len() implies position_less(#[trigger] new_roads[i], #[trigger] new_roads[j]) by {
                if j < slot {
                } else if i < slot && j == slot {
                } else if i < slot {
                    assert(position_less(old_roads[i], old_roads[j - 1]));
                } else if i == slot {
                    if j - 1 > slot {
                        assert(position_less(old_roads[slot as int], old_roads[j - 1]));
                    }
                } else {
                    assert(position_less(old_roads[i - 1], old_roads[j - 1]));
                }
            }
            assert(self.roads@.to_set() =~= old_roads.to_set().insert(position)) by {
                assert forall|q: GridPosition| self.roads@.contains(q) <==> old_roads.contains(q) || q == position by {
                    if self.roads@.contains(q) {
                        let i = choose|i: int| 0 <= i < self.roads@.len() && self.roads@[i] == q;
                        if i < slot { assert(old_roads[i] == q); } else if i > slot { assert(old_roads[i - 1] == q); }
                    }
                    if old_roads.contains(q) {
                        let i = choose|i: int| 0 <= i < old_roads.len() && old_roads[i] == q;
                        if i < slot { assert(self.roads@[i] == q); } else { assert(self.roads@[i + 1] == q); }
                    }
                    if q == position {
                        assert(self.roads@[slot as int] == q);
                    }
                }
            }
            assert(self@.events =~= old(self)@.events.push(road_placed_text(position)));
            assert forall|i: int| 0 <= i < self.trucks@.len() implies {
                let t = #[trigger] self.trucks@[i];
                &&& self.roads@.contains(t.position)
                &&& road_walk(self.roads@.to_set(), t.position, t.route@)
            } by {
                let t = self.trucks@[i];
                assert(old_roads.contains(t.position));
                assert(self.roads@.to_set().contains(t.position));
            }
            assert forall|i: int| 0 <= i < self.roads@.len() implies in_bounds(#[trigger] self.roads@[i]) by {
                if i < slot { assert(self.roads@[i] == old_roads[i]); } else if i > slot { assert(self.roads@[i] == old_roads[i - 1]); }
            }
            assert(goods_weight(self@) == goods_weight(old(self)@));
        }
        Ok(true)
    }

    /// Erases a road, unless a truck stands on it or will drive over it. The
    /// result tells whether there was a road.
    pub fn remove_road(&mut self, position: GridPosition) -> (r: Result<bool, CompactEditError>)
        requires
            old(self).wf(),
        ensures
            final(self).wf(),
            !in_bounds(position) ==> r == Err::<bool, CompactEditError>(CompactEditError::OutOfBounds(position)),
            in_bounds(position) && road_in_use(old(self)@, position) ==> r == Err::<bool, CompactEditError>(CompactEditError::RoadInUse(position)),
            r is Err ==> final(self)@ == old(self)@,
            in_bounds(position) && !road_in_use(old(self)@, position) ==> r == Ok::<bool, CompactEditError>(old(self)@.roads.contains(position)),
            r is Ok ==> {
                &&& final(self)@.roads == old(self)@.roads.remove(position)
                &&& same_but_roads(final(self)@, old(self)@)
                &&& logged(old(self)@.events, final(self)@.events, old(self)@.roads.contains(position), road_removed_text(position))
            },
    {
        proof {
            reveal(trucks_on_roads);
        }
        CompactGame::validate_cell(position)?;
        let mut k: usize = 0;
        while k < self.trucks.len()
            invariant
                k <= self.trucks@.len(),
                *self == *old(self),
                old(self).wf(),
                in_bounds(position),
                forall|j: int| 0 <= j < k ==> (#[trigger] self.trucks@[j]).position != position && !self.trucks@[j].route@.contains(position),
            decreases self.trucks@.len() - k,
        {
            if self.trucks[k].position == position || contains_cell(&self.trucks[k].route, position) {
                return Err(CompactEditError::RoadInUse(position));
            }
            k = k + 1;
        }
        let (slot, present) = sorted_slot(&self.roads, position);
        if !present {
            proof {
                assert(self@.roads.remove(position) =~= self@.roads);
            }
            return Ok(false);
        }
        let ghost old_roads = self.roads@;
        self.roads.remove(slot);
        let mut line = String::new();
        push_str(&mut line, "road removed ");
        push_cell(&mut line, position);
        proof {
            lemma_texts_push(self.events@, line);
            reveal_strlit("road removed ");
        }
        self.events.push(line);
        proof {
            let new_roads = self.roads@;
            assert(new_roads =~= old_roads.remove(slot as int));
            assert forall|i: int, j: int| 0 <= i < j < new_roads.len() implies position_less(#[trigger] new_roads[i], #[trigger] new_roads[j]) by {
                if j < slot {
                } else if i < slot {
                    assert(position_less(old_roads[i], old_roads[j + 1]));
                } else {
                    assert(position_less(old_roads[i + 1], old_roads[j + 1]));
                }
            }
            assert(self.roads@.to_set() =~= old_roads.to_set().remove(position)) by {
                assert forall|q: GridPosition| self.roads@.contains(q) <==> old_roads.contains(q) && q != position by {
                    if self.roads@.contains(q) {
                        let i = choose|i: int| 0 <= i < self.roads@.len() && self.roads@[i] == q;
                        if i < slot {
                            assert(old_roads[i] == q);
                            assert(position_less(old_roads[i], old_roads[slot as int]));
                        } else {
                            assert(old_roads[i + 1] == q);
                            assert(position_less(old_roads[slot as int], old_roads[i + 1]));
                        }
                    }
                    if old_roads.contains(q) && q != position {
                        let i = choose|i: int| 0 <= i < old_roads.len() && old_roads[i] == q;
                        if i < slot { assert(self.roads@[i] == q); } else { assert(self.roads@[i - 1] == q); }
                    }
                }
            }
            assert(self@.events =~= old(self)@.events.push(road_removed_text(position)));
            assert forall|i: int| 0 <= i < self.trucks@.len() implies {
                let t = #[trigger] self.trucks@[i];
                &&& self.roads@.contains(t.position)
                &&& road_walk(self.roads@.to_set(), t.position, t.route@)
            } by {
                let t = self.trucks@[i];
                assert(old_roads.contains(t.position));
                assert(self.roads@.to_set().contains(t.position));
                assert forall|j: int| 0 <= j < t.route@.len() implies self.roads@.to_set().contains(#[trigger] t.route@[j]) by {
                    assert(old_roads.to_set().contains(t.route@[j]));
                    assert(t.route@.contains(t.route@[j]));
                }
            }
            assert forall|i: int| 0 <= i < self.roads@.len() implies in_bounds(#[trigger] self.roads@[i]) by {
                if i < slot { assert(self.roads@[i] == old_roads[i]); } else { assert(self.roads@[i] == old_roads[i + 1]); }
            }
            assert(goods_weight(self@) == goods_weight(old(self)@));
        }
        Ok(true)
    }

    /// Places a building on an empty cell beside a road, if the allowance has
    /// room for one more. The building gets the id after the last one's.
    pub fn place_building(&mut self, position: GridPosition) -> (r: Result<u16, CompactEditError>)
        requires
            old(self).wf(),
        ensures
            final(self).wf(),
            !in_bounds(position) ==> r == Err::<u16, CompactEditError>(CompactEditError::OutOfBounds(position)),
            in_bounds(position) && (object_at(old(self)@, position) || old(self)@.roads.contains(position))
                ==> r == Err::<u16, CompactEditError>(CompactEditError::CellOccupied(position)),
            in_bounds(position) && !object_at(old(self)@, position) && !old(self)@.roads.contains(position)
                && !has_frontage(old(self)@.roads, position) ==> r == Err::<u16, CompactEditError>(CompactEditError::RoadRequired(position)),
            in_bounds(position) && !object_at(old(self)@, position) && !old(self)@.roads.contains(position)
                && has_frontage(old(self)@.roads, position) && old(self)@.buildings.len() >= old(self)@.building_limit
                ==> r == Err::<u16, CompactEditError>(CompactEditError::BuildingAllowanceExhausted {
                    used: old(self)@.buildings.len() as u16,
                    limit: old(self)@.building_limit,
                }),
            r is Err ==> final(self)@ == old(self)@,
            in_bounds(position) && !object_at(old(self)@, position) && !old(self)@.roads.contains(position)
                && has_frontage(old(self)@.roads, position) && old(self)@.buildings.len() < old(self)@.building_limit
                ==> r == Ok::<u16, CompactEditError>(next_building_id(old(self)@.buildings)),
            r matches Ok(id) ==> {
                &&& final(self)@.buildings == old(self)@.buildings.push(CompactBuilding {
                        id,
                        position,
                        recipe: None,
                        input_stock: 0,
                        output_stock: 0,
                        craft_progress: 0,
                    })
                &&& same_but_buildings(final(self)@, old(self)@)
                &&& final(self)@.events == old(self)@.events.push(building_placed_text(id, position))
            },
    {
        CompactGame::validate_cell(position)?;
        if self.object_occupies(position) || contains_cell(&self.roads, position) {
            return Err(CompactEditError::CellOccupied(position));
        }
        if !self.has_road_frontage(position) {
            return Err(CompactEditError::RoadRequired(position));
        }
        let used = self.buildings.len() as u16;
        if used >= self.building_limit {
            return Err(CompactEditError::BuildingAllowanceExhausted { used, limit: self.building_limit });
        }
        let n = self.buildings.len();
        let id: u16 = if n == 0 { 0 } else { self.buildings[n - 1].id.saturating_add(1) };
        let building = CompactBuilding { id, position, recipe: None, input_stock: 0, output_stock: 0, craft_progress: 0 };
        proof {
            lemma_sum_push(self.buildings@, building, building_weights());
        }
        self.buildings.push(building);
        let mut line = String::new();
        push_str(&mut line, "building ");
        push_u64(&mut line, id as u64);
        push_str(&mut line, " placed ");
        push_cell(&mut line, position);
        proof {
            lemma_texts_push(self.events@, line);
            reveal_strlit("building ");
            reveal_strlit(" placed ");
            assert(line@ =~= building_placed_text(id, position));
        }
        self.events.push(line);
        proof {
            assert(self@.events =~= old(self)@.events.push(building_placed_text(id, position)));
            assert(goods_weight(self@) == goods_weight(old(self)@));
        }
        Ok(id)
    }

    /// Sets a building to a recipe, emptying its stock and stopping its
    /// batch. Where several buildings share the id, the first one is set.
    pub fn configure_building(&mut self, building_id: u16, recipe: CompactRecipe) -> (r: Result<(), CompactEditError>)
        requires
            old(self).wf(),
        ensures
            final(self).wf(),
            no_building_with_id(old(self)@.buildings, building_id) <==> r is Err,
            r is Err ==> r == Err::<(), CompactEditError>(CompactEditError::UnknownBuilding(building_id)) && final(self)@ == old(self)@,
            r is Ok ==> exists|i: int| #[trigger] first_with_id(old(self)@.buildings, building_id, i)
                && final(self)@.buildings == old(self)@.buildings.update(i, CompactBuilding {
                    recipe: Some(recipe),
                    input_stock: 0,
                    output_stock: 0,
                    craft_progress: 0,
                    ..old(self)@.buildings[i]
                }),
            r is Ok ==> same_but_buildings(final(self)@, old(self)@)
                && final(self)@.events == old(self)@.events.push(configured_text(building_id, recipe)),
    {
        let mut k: usize = 0;
        while k < self.buildings.len() && self.buildings[k].id != building_id
            invariant
                k <= self.buildings@.len(),
                *self == *old(self),
                forall|j: int| 0 <= j < k ==> (#[trigger] self.buildings@[j]).id != building_id,
            decreases self.buildings@.len() - k,
        {
            k = k + 1;
        }
        if k == self.buildings.len() {
            return Err(CompactEditError::UnknownBuilding(building_id));
        }
        let old_building = self.buildings[k];
        let updated = CompactBuilding {
            recipe: Some(recipe),
            input_stock: 0,
            output_stock: 0,
            craft_progress: 0,
            ..old_building
        };
        proof {
            lemma_sum_update(self.buildings@, k as int, updated, building_weights());
        }
        self.buildings.set(k, updated);
        let mut line = String::new();
        push_str(&mut line, "building ");
        push_u64(&mut line, building_id as u64);
        push_str(&mut line, " configured for ");
        push_str(&mut line, recipe.name());
        proof {
            lemma_texts_push(self.events@, line);
            reveal_strlit("building ");
            reveal_strlit(" configured for ");
            assert(line@ =~= configured_text(building_id, recipe));
        }
        self.events.push(line);
        proof {
            assert(first_with_id(old(self)@.buildings, building_id, k as int));
            assert(self@.events =~= old(self)@.events.push(configured_text(building_id, recipe)));
            assert forall|i: int| 0 <= i < self.buildings@.len() implies in_bounds((#[trigger] self.buildings@[i]).position) by {
                assert(self.buildings@[i].position == old(self).buildings@[i].position);
            }
        }
        Ok(())
    }
}

/// Where a walk from `start` ends: its last cell, or `start` itself.
pub open spec fn walk_end(start: GridPosition, path: Seq<GridPosition>) -> GridPosition {
    if path.len() == 0 { start } else { path.last() }
}

/// Whether some walk over roads leads from `start` to one of the targets.
pub open spec fn reachable(roads: Set<GridPosition>, start: GridPosition, targets: Seq<GridPosition>) -> bool {
    exists|path: Seq<GridPosition>| road_walk(roads, start, path) && targets.contains(#[trigger] walk_end(start, path))
}

proof fn lemma_distinct_subset_len(a: Seq<GridPosition>, b: Seq<GridPosition>)
    requires
        a.no_duplicates(),
        forall|i: int| 0 <= i < a.len() ==> b.contains(#[trigger] a[i]),
    ensures
        a.len() <= b.len(),
{
    broadcast use vstd::seq_lib::seq_to_set_is_finite;
    a.unique_seq_to_set();
    b.lemma_cardinality_of_set();
    assert(a.to_set().subset_of(b.to_set()));
    vstd::set_lib::lemma_len_subset(a.to_set(), b.to_set());
}

/// A walk from inside a set of cells that is closed under stepping along
/// roads never leaves the set.
proof fn lemma_walk_stays(roads: Set<GridPosition>, start: GridPosition, visited: Seq<GridPosition>, path: Seq<GridPosition>)
    requires
        visited.contains(start),
        forall|v: GridPosition, q: GridPosition| visited.contains(v) && roads.contains(q) && #[trigger] adjacent(v, q) ==> visited.contains(q),
        road_walk(roads, start, path),
    ensures
        visited.contains(walk_end(start, path)),
    decreases path.len(),
{
    if path.len() > 0 {
        let prefix = path.drop_last();
        assert(road_walk(roads, start, prefix)) by {
            assert forall|i: int| 0 <= i < prefix.len() implies roads.contains(#[trigger] prefix[i])
                && adjacent(if i == 0 { start } else { prefix[i - 1] }, prefix[i]) by {
                assert(prefix[i] == path[i]);
                if i > 0 { assert(prefix[i - 1] == path[i - 1]); }
            }
        }
        lemma_walk_stays(roads, start, visited, prefix);
        let n = path.len() - 1;
        assert(roads.contains(path[n]));
        assert(adjacent(if n == 0 { start } else { path[n - 1] }, path[n]));
        assert(walk_end(start, prefix) == (if n == 0 { start } else { path[n - 1] }));
    }
}

/// Each search path is a walk over roads from `from` to its frontier cell.
#[verifier::opaque]
pub open spec fn paths_lead(roads: Set<GridPosition>, from: GridPosition, frontier: Seq<GridPosition>, paths: Seq<Vec<GridPosition>>) -> bool {
    &&& frontier.len() == paths.len()
    &&& forall|i: int| 0 <= i < paths.len() ==> road_walk(roads, from, (#[trigger] paths[i])@) && walk_end(from, paths[i]@) == frontier[i]
}

/// Every road beside the first `head` frontier cells is in the frontier.
#[verifier::opaque]
pub open spec fn explored(roads: Set<GridPosition>, frontier: Seq<GridPosition>, head: int) -> bool {
    forall|i: int, q: GridPosition| 0 <= i < head && roads.contains(q) && #[trigger] adjacent(frontier[i], q) ==> frontier.contains(q)
}

/// The frontier holds roads that are not targets, each once.
#[verifier::opaque]
pub open spec fn frontier_ok(roads: Set<GridPosition>, targets: Seq<GridPosition>, frontier: Seq<GridPosition>) -> bool {
    &&& frontier.no_duplicates()
    &&& forall|i: int| 0 <= i < frontier.len() ==> roads.contains(#[trigger] frontier[i]) && !targets.contains(frontier[i])
}

proof fn lemma_search_start(roads: Set<GridPosition>, targets: Seq<GridPosition>, from: GridPosition, frontier: Seq<GridPosition>, paths: Seq<Vec<GridPosition>>)
    requires
        roads.contains(from),
        !targets.contains(from),
        frontier == seq![from],
        paths.len() == 1,
        paths[0]@.len() == 0,
    ensures
        paths_lead(roads, from, frontier, paths),
        explored(roads, frontier, 0),
        frontier_ok(roads, targets, frontier),
{
    reveal(paths_lead);
    reveal(explored);
    reveal(frontier_ok);
}

proof fn lemma_search_push(
    roads: Set<GridPosition>,
    targets: Seq<GridPosition>,
    from: GridPosition,
    frontier: Seq<GridPosition>,
    paths: Seq<Vec<GridPosition>>,
    head: int,
    next: GridPosition,
    path: Vec<GridPosition>,
)
    requires
        paths_lead(roads, from, frontier, paths),
        explored(roads, frontier, head),
        frontier_ok(roads, targets, frontier),
        0 <= head <= frontier.len(),
        roads.contains(next),
        !frontier.contains(next),
        !targets.contains(next),
        road_walk(roads, from, path@),
        walk_end(from, path@) == next,
    ensures
        paths_lead(roads, from, frontier.push(next), paths.push(path)),
        explored(roads, frontier.push(next), head),
        frontier_ok(roads, targets, frontier.push(next)),
        frontier.push(next).contains(next),
        forall|q: GridPosition| frontier.contains(q) ==> #[trigger] frontier.push(next).contains(q),
{
    reveal(paths_lead);
    reveal(explored);
    reveal(frontier_ok);
    let f = frontier.push(next);
    assert(f[f.len() - 1] == next);
    assert forall|q: GridPosition| frontier.contains(q) implies #[trigger] f.contains(q) by {
        let i = choose|i: int| 0 <= i < frontier.len() && frontier[i] == q;
        assert(f[i] == q);
    }
    assert forall|i: int, q: GridPosition| 0 <= i < head && roads.contains(q) && #[trigger] adjacent(f[i], q) implies f.contains(q) by {
        assert(f[i] == frontier[i]);
    }
    assert forall|i: int| 0 <= i < paths.push(path).len() implies road_walk(roads, from, (#[trigger] paths.push(path)[i])@)
        && walk_end(from, paths.push(path)[i]@) == f[i] by {
        if i < paths.len() {
            assert(paths.push(path)[i] == paths[i]);
        }
    }
}

proof fn lemma_search_advance(roads: Set<GridPosition>, frontier: Seq<GridPosition>, head: int)
    requires
        explored(roads, frontier, head),
        0 <= head < frontier.len(),
        inner(frontier[head]),
        forall|j: int| 0 <= j < 4 && roads.contains(neighbor(frontier[head], j)) ==> frontier.contains(#[trigger] neighbor(frontier[head], j)),
    ensures
        explored(roads, frontier, head + 1),
{
    reveal(explored);
    let c = frontier[head];
    assert forall|i: int, q: GridPosition| 0 <= i < head + 1 && roads.contains(q) && #[trigger] adjacent(frontier[i], q) implies frontier.contains(q) by {
        if i == head {
            lemma_neighbors(c, q);
            if q == neighbor(c, 0) {
            } else if q == neighbor(c, 1) {
            } else if q == neighbor(c, 2) {
            } else {
                assert(q == neighbor(c, 3));
            }
        }
    }
}

proof fn lemma_search_exhausted(roads: Set<GridPosition>, targets: Seq<GridPosition>, from: GridPosition, frontier: Seq<GridPosition>)
    requires
        explored(roads, frontier, frontier.len() as int),
        frontier_ok(roads, targets, frontier),
        frontier.len() >= 1,
        frontier[0] == from,
    ensures
        !reachable(roads, from, targets),
{
    reveal(explored);
    reveal(frontier_ok);
    assert forall|path: Seq<GridPosition>| road_walk(roads, from, path) implies !targets.contains(#[trigger] walk_end(from, path)) by {
        assert(frontier.contains(from)) by { assert(frontier[0] == from); }
        assert forall|v: GridPosition, q: GridPosition| frontier.contains(v) && roads.contains(q) && #[trigger] adjacent(v, q)
            implies frontier.contains(q) by {
            let i = choose|i: int| 0 <= i < frontier.len() && frontier[i] == v;
            assert(adjacent(frontier[i], q));
        }
        lemma_walk_stays(roads, from, frontier, path);
        let e = walk_end(from, path);
        let i = choose|i: int| 0 <= i < frontier.len() && frontier[i] == e;
        assert(!targets.contains(frontier[i]));
    }
}

proof fn lemma_frontier_bound(roads_seq: Seq<GridPosition>, targets: Seq<GridPosition>, frontier: Seq<GridPosition>)
    requires
        frontier_ok(roads_seq.to_set(), targets, frontier),
    ensures
        frontier.len() <= roads_seq.len(),
{
    reveal(frontier_ok);
    assert forall|i: int| 0 <= i < frontier.len() implies roads_seq.contains(#[trigger] frontier[i]) by {
        assert(roads_seq.to_set().contains(frontier[i]));
    }
    lemma_distinct_subset_len(frontier, roads_seq);
}

proof fn lemma_extend_walk(roads: Set<GridPosition>, from: GridPosition, path: Seq<GridPosition>, next: GridPosition)
    requires
        road_walk(roads, from, path),
        roads.contains(next),
        adjacent(walk_end(from, path), next),
    ensures
        road_walk(roads, from, path.push(next)),
        walk_end(from, path.push(next)) == next,
{
    let p = path.push(next);
    assert forall|i: int| 0 <= i < p.len() implies roads.contains(#[trigger] p[i])
        && adjacent(if i == 0 { from } else { p[i - 1] }, p[i]) by {
        if i < path.len() {
            assert(p[i] == path[i]);
            if i > 0 { assert(p[i - 1] == path[i - 1]); }
        }
    }
}

proof fn lemma_path_entry(roads: Set<GridPosition>, from: GridPosition, frontier: Seq<GridPosition>, paths: Seq<Vec<GridPosition>>, i: int)
    requires
        paths_lead(roads, from, frontier, paths),
        0 <= i < frontier.len(),
    ensures
        road_walk(roads, from, paths[i]@),
        walk_end(from, paths[i]@) == frontier[i],
        paths.len() == frontier.len(),
{
    reveal(paths_lead);
}

proof fn lemma_frontier_entry(roads: Set<GridPosition>, targets: Seq<GridPosition>, frontier: Seq<GridPosition>, i: int)
    requires
        frontier_ok(roads, targets, frontier),
        0 <= i < frontier.len(),
    ensures
        roads.contains(frontier[i]),
{
    reveal(frontier_ok);
}

impl CompactGame {
    /// A shortest-first search over roads from `from` to the nearest of the
    /// targets, trying the cells above, left, right and below in that order.
    /// The walk leaves out `from` and ends on the target it reached; it is
    /// empty where `from` is a target.
    fn route_on_roads(&self, from: GridPosition, targets: &Vec<GridPosition>) -> (r: Option<Vec<GridPosition>>)
        requires
            self.wf(),
        ensures
            r matches Some(path) ==> {
                &&& self@.roads.contains(from)
                &&& road_walk(self@.roads, from, path@)
                &&& targets@.contains(walk_end(from, path@))
            },
            self@.roads.contains(from) && targets@.contains(from) ==> (r matches Some(path) && path@.len() == 0),
            r is None ==> !self@.roads.contains(from) || !reachable(self@.roads, from, targets@),
    {
        if !contains_cell(&self.roads, from) || targets.len() == 0 {
            return None;
        }
        if contains_cell(targets, from) {
            return Some(Vec::new());
        }
        let ghost roads = self@.roads;
        proof {
            self.lemma_wf_roads();
        }
        let mut frontier: Vec<GridPosition> = Vec::new();
        frontier.push(from);
        let mut paths: Vec<Vec<GridPosition>> = Vec::new();
        paths.push(Vec::new());
        proof {
            assert(frontier@ =~= seq![from]);
            lemma_search_start(roads, targets@, from, frontier@, paths@);
        }
        let mut head: usize = 0;
        while head < frontier.len()
            invariant
                roads == self@.roads,
                roads == self.roads@.to_set(),
                forall|p: GridPosition| #[trigger] roads.contains(p) ==> in_bounds(p),
                frontier@.len() >= 1,
                frontier@[0] == from,
                roads.contains(from),
                !targets@.contains(from),
                head <= frontier@.len(),
                paths_lead(roads, from, frontier@, paths@),
                explored(roads, frontier@, head as int),
                frontier_ok(roads, targets@, frontier@),
            decreases self.roads@.len() - frontier@.len(), frontier@.len() - head,
        {
            proof {
                lemma_frontier_bound(self.roads@, targets@, frontier@);
                lemma_path_entry(roads, from, frontier@, paths@, head as int);
                lemma_frontier_entry(roads, targets@, frontier@, head as int);
            }
            let current = frontier[head];
            let current_path = copy_cells(&paths[head]);
            let around = cardinal_neighbors(current);
            let mut k: usize = 0;
            let ghost len_before = frontier@.len();
            while k < 4
                invariant
                    roads == self@.roads,
                    roads == self.roads@.to_set(),
                    forall|p: GridPosition| #[trigger] roads.contains(p) ==> in_bounds(p),
                    frontier@.len() >= len_before,
                    len_before > head,
                    roads.contains(from),
                    !targets@.contains(from),
                    frontier@[0] == from,
                    frontier@[head as int] == current,
                    in_bounds(current),
                    road_walk(roads, from, current_path@),
                    walk_end(from, current_path@) == current,
                    k <= 4,
                    forall|j: int| 0 <= j < 4 ==> #[trigger] around@[j] == neighbor(current, j),
                    paths_lead(roads, from, frontier@, paths@),
                    explored(roads, frontier@, head as int),
                    frontier_ok(roads, targets@, frontier@),
                    forall|j: int| 0 <= j < k && roads.contains(neighbor(current, j)) ==> frontier@.contains(#[trigger] neighbor(current, j)),
                decreases 4 - k,
            {
                let next = around[k];
                if contains_cell(&self.roads, next) && !contains_cell(&frontier, next) {
                    let mut path = copy_cells(&current_path);
                    path.push(next);
                    proof {
                        lemma_neighbors(current, next);
                        lemma_extend_walk(roads, from, current_path@, next);
                    }
                    if contains_cell(targets, next) {
                        return Some(path);
                    }
                    proof {
                        lemma_search_push(roads, targets@, from, frontier@, paths@, head as int, next, path);
                    }
                    frontier.push(next);
                    paths.push(path);
                    proof {
                        assert(frontier@[head as int] == current);
                    }
                }
                k = k + 1;
            }
            proof {
                lemma_search_advance(roads, frontier@, head as int);
                lemma_frontier_bound(self.roads@, targets@, frontier@);
            }
            head = head + 1;
        }
        proof {
            lemma_search_exhausted(roads, targets@, from, frontier@);
        }
        None
    }
}

/// Whether a walk over roads from `start` ends beside `object`.
#[verifier::opaque]
pub open spec fn reaches_object(roads: Set<GridPosition>, start: GridPosition, object: GridPosition) -> bool {
    exists|path: Seq<GridPosition>| road_walk(roads, start, path) && roads.contains(walk_end(start, path))
        && #[trigger] adjacent(object, walk_end(start, path))
}

/// What a route to an object promises: a walk over roads from `start` that
/// ends on a road beside the object.
pub open spec fn route_beside(roads: Set<GridPosition>, start: GridPosition, object: GridPosition, path: Seq<GridPosition>) -> bool {
    &&& roads.contains(start)
    &&& road_walk(roads, start, path)
    &&& roads.contains(walk_end(start, path))
    &&& adjacent(object, walk_end(start, path))
}

/// Whether `q` is a road among the first `k` cells beside `p`.
pub open spec fn among_first(roads: Set<GridPosition>, p: GridPosition, k: int, q: GridPosition) -> bool {
    ||| (k > 0 && q == neighbor(p, 0) && roads.contains(q))
    ||| (k > 1 && q == neighbor(p, 1) && roads.contains(q))
    ||| (k > 2 && q == neighbor(p, 2) && roads.contains(q))
    ||| (k > 3 && q == neighbor(p, 3) && roads.contains(q))
}

impl CompactGame {
    /// The roads beside a cell, above, left, right and below.
    fn roads_beside(&self, object: GridPosition) -> (targets: Vec<GridPosition>)
        requires
            inner(object),
        ensures
            forall|q: GridPosition| #[trigger] targets@.contains(q) <==> self@.roads.contains(q) && adjacent(object, q),
    {
        let around = cardinal_neighbors(object);
        let mut targets: Vec<GridPosition> = Vec::new();
        let mut k: usize = 0;
        while k < 4
            invariant
                k <= 4,
                inner(object),
                forall|j: int| 0 <= j < 4 ==> #[trigger] around@[j] == neighbor(object, j),
                forall|q: GridPosition| #[trigger] targets@.contains(q) <==> among_first(self@.roads, object, k as int, q),
            decreases 4 - k,
        {
            let next = around[k];
            if contains_cell(&self.roads, next) {
                let ghost before = targets@;
                targets.push(next);
                proof {
                    assert forall|q: GridPosition| #[trigger] targets@.contains(q) <==> among_first(self@.roads, object, k + 1, q) by {
                        if before.contains(q) {
                            let i = choose|i: int| 0 <= i < before.len() && before[i] == q;
                            assert(targets@[i] == q);
                        }
                        if targets@.contains(q) && q != next {
                            let i = choose|i: int| 0 <= i < targets@.len() && targets@[i] == q;
                            assert(before[i] == q);
                        }
                        assert(targets@[before.len() as int] == next);
                    }
                }
            }
            k = k + 1;
        }
        proof {
            assert forall|q: GridPosition| #[trigger] targets@.contains(q) <==> self@.roads.contains(q) && adjacent(object, q) by {
                lemma_neighbors(object, q);
            }
        }
        targets
    }
}

impl CompactGame {
    /// A route over roads from `from` to a road beside `object`.
    fn route_to_object(&self, from: GridPosition, object: GridPosition) -> (r: Option<Vec<GridPosition>>)
        requires
            self.wf(),
            in_bounds(object),
        ensures
            r matches Some(path) ==> route_beside(self@.roads, from, object, path@),
            r is None <==> !self@.roads.contains(from) || !reaches_object(self@.roads, from, object),
    {
        proof {
            reveal(reaches_object);
        }
        let targets = self.roads_beside(object);
        let r = self.route_on_roads(from, &targets);
        proof {
            let roads = self@.roads;
            if r is None && roads.contains(from) {
                if reaches_object(roads, from, object) {
                    let path = choose|path: Seq<GridPosition>| road_walk(roads, from, path) && roads.contains(walk_end(from, path))
                        && #[trigger] adjacent(object, walk_end(from, path));
                    assert(targets@.contains(walk_end(from, path)));
                    assert(reachable(roads, from, targets@));
                }
            }
            if r is Some {
                let found = r->0@;
                assert(targets@.contains(walk_end(from, found)));
                assert(reaches_object(roads, from, object));
            }
        }
        r
    }

    /// A route over roads from `from` to a road beside the first building
    /// with an id.
    fn route_to_building(&self, from: GridPosition, building_id: u16) -> (r: Option<Vec<GridPosition>>)
        requires
            self.wf(),
        ensures
            r matches Some(path) ==> exists|i: int| #[trigger] first_with_id(self@.buildings, building_id, i)
                && route_beside(self@.roads, from, self@.buildings[i].position, path@),
            r is None <==> no_building_with_id(self@.buildings, building_id) || (exists|i: int| #[trigger] first_with_id(self@.buildings, building_id, i)
                && (!self@.roads.contains(from) || !reaches_object(self@.roads, from, self@.buildings[i].position))),
    {
        let mut k: usize = 0;
        while k < self.buildings.len() && self.buildings[k].id != building_id
            invariant
                k <= self.buildings@.len(),
                forall|j: int| 0 <= j < k ==> (#[trigger] self.buildings@[j]).id != building_id,
            decreases self.buildings@.len() - k,
        {
            k = k + 1;
        }
        if k == self.buildings.len() {
            return None;
        }
        proof {
            assert(first_with_id(self@.buildings, building_id, k as int));
            self.lemma_wf_roads();
            assert(in_bounds(self@.buildings[k as int].position));
            assert forall|i: int| #[trigger] first_with_id(self@.buildings, building_id, i) implies i == k by {
                if i < k { } else if i > k { assert(self@.buildings[k as int].id == building_id); }
            }
        }
        let r = self.route_to_object(from, self.buildings[k].position);
        r
    }
}

/// Whether a log only grew.
pub open spec fn extends(before: Seq<Seq<char>>, after: Seq<Seq<char>>) -> bool {
    after.len() >= before.len() && forall|i: int| 0 <= i < before.len() ==> #[trigger] after[i] == before[i]
}

proof fn lemma_extends_trans(a: Seq<Seq<char>>, b: Seq<Seq<char>>, c: Seq<Seq<char>>)
    requires
        extends(a, b),
        extends(b, c),
    ensures
        extends(a, c),
{
}

/// Two states with the same roads, and deposits, buildings and trucks at the
/// same places under the same ids.
pub open spec fn same_places(a: CompactModel, b: CompactModel) -> bool {
    &&& a.roads == b.roads
    &&& a.deposits.len() == b.deposits.len()
    &&& forall|i: int| 0 <= i < a.deposits.len() ==> (#[trigger] a.deposits[i]).position == b.deposits[i].position
        && a.deposits[i].item == b.deposits[i].item
    &&& a.buildings.len() == b.buildings.len()
    &&& forall|i: int| 0 <= i < a.buildings.len() ==> (#[trigger] a.buildings[i]).position == b.buildings[i].position
        && a.buildings[i].id == b.buildings[i].id && a.buildings[i].recipe == b.buildings[i].recipe
    &&& a.trucks.len() == b.trucks.len()
    &&& forall|i: int| 0 <= i < a.trucks.len() ==> (#[trigger] a.trucks[i]).id == b.trucks[i].id
}

proof fn lemma_same_places_trans(a: CompactModel, b: CompactModel, c: CompactModel)
    requires
        same_places(b, a),
        same_places(c, b),
    ensures
        same_places(c, a),
{
}

pub open spec fn cycle_text(cycle: u32, demand: u32) -> Seq<char> {
    "market cycle "@ + decimal(cycle as nat) + " demand +"@ + decimal(demand as nat)
}

/// The market at the start of a new cycle: the next cycle asks for four more
/// bars than its number, on top of what the last one left unsold.
pub open spec fn next_cycle(m: CompactMarketSnapshot) -> CompactMarketSnapshot {
    let cycle = (m.cycle + 1) as u32;
    let demand = (4 + cycle) as u32;
    CompactMarketSnapshot {
        cycle,
        demand_per_cycle: demand,
        remaining_demand: if m.remaining_demand + demand > u32::MAX { u32::MAX } else { (m.remaining_demand + demand) as u32 },
        ..m
    }
}

/// A deposit after a mining tick: one unit moves from the ground to the
/// stockpile, unless the ground is empty or the stockpile holds sixty.
pub open spec fn mined(d: CompactDeposit) -> CompactDeposit {
    if d.remaining > 0 && d.stockpile < 60 {
        CompactDeposit { remaining: (d.remaining - 1) as u32, stockpile: (d.stockpile + 1) as u32, ..d }
    } else {
        d
    }
}

/// A tick mines at most one unit from each deposit and never past a
/// stockpile of sixty: no stockpile grows beyond sixty or beyond what it
/// held, a deposit whose stockpile holds sixty keeps its ground, ground only
/// shrinks, by one unit at most and only on mining ticks, and a deposit with
/// ground left and room in its stockpile is mined on every mining tick.
pub proof fn law_step_mining(before: CompactModel, after: CompactModel)
    requires
        after.deposits.len() == before.deposits.len(),
        forall|i: int| 0 <= i < before.deposits.len() ==> (#[trigger] after.deposits[i]).remaining == (
            if (before.tick + 1) % 2 == 0 { mined(before.deposits[i]).remaining } else { before.deposits[i].remaining }),
        forall|i: int| 0 <= i < before.deposits.len() ==> (#[trigger] after.deposits[i]).stockpile <= (
            if (before.tick + 1) % 2 == 0 { mined(before.deposits[i]).stockpile } else { before.deposits[i].stockpile }),
    ensures
        forall|i: int| 0 <= i < before.deposits.len() ==> (#[trigger] after.deposits[i]).stockpile
            <= (if before.deposits[i].stockpile > 60 { before.deposits[i].stockpile as int } else { 60int }),
        forall|i: int| 0 <= i < before.deposits.len() && before.deposits[i].stockpile >= 60
            ==> (#[trigger] after.deposits[i]).remaining == before.deposits[i].remaining,
        forall|i: int| 0 <= i < before.deposits.len() ==> (#[trigger] after.deposits[i]).remaining <= before.deposits[i].remaining
            && after.deposits[i].remaining + 1 >= before.deposits[i].remaining,
        forall|i: int| 0 <= i < before.deposits.len() && (before.tick + 1) % 2 != 0
            ==> (#[trigger] after.deposits[i]).remaining == before.deposits[i].remaining,
        forall|i: int| 0 <= i < before.deposits.len() && (before.tick + 1) % 2 == 0
            && before.deposits[i].remaining > 0 && before.deposits[i].stockpile < 60
            ==> (#[trigger] after.deposits[i]).remaining + 1 == before.deposits[i].remaining,
{
}

/// A building after a production tick. A set building with no batch running
/// starts one from three units of input; a running batch counts down and, on
/// its last tick, adds ten bars to the output.
pub open spec fn crafted(b: CompactBuilding) -> CompactBuilding {
    if b.recipe is None {
        b
    } else {
        let started = if b.craft_progress == 0 && b.input_stock >= 3 {
            CompactBuilding { input_stock: (b.input_stock - 3) as u32, craft_progress: 4, ..b }
        } else {
            b
        };
        if started.craft_progress > 0 {
            let left = (started.craft_progress - 1) as u8;
            if left == 0 {
                CompactBuilding {
                    output_stock: if started.output_stock + 10 > u32::MAX { u32::MAX } else { (started.output_stock + 10) as u32 },
                    craft_progress: 0,
                    ..started
                }
            } else {
                CompactBuilding { craft_progress: left, ..started }
            }
        } else {
            started
        }
    }
}

/// Whether a building finishes a batch this tick.
pub open spec fn finishes(b: CompactBuilding) -> bool {
    b.recipe is Some && b.craft_progress == 1
}

pub open spec fn produced_text(id: u16, item: ItemId) -> Seq<char> {
    "building "@ + decimal(id as nat) + " produced 10 "@ + item_name(item)
}

/// The lines a production tick logs for the buildings, in order.
pub open spec fn production_log(bs: Seq<CompactBuilding>) -> Seq<Seq<char>>
    decreases bs.len(),
{
    if bs.len() == 0 {
        Seq::empty()
    } else {
        let rest = production_log(bs.drop_last());
        let b = bs.last();
        if finishes(b) { rest.push(produced_text(b.id, recipe_output(b.recipe->0))) } else { rest }
    }
}

pub open spec fn sold_text(sold: u32, item: ItemId) -> Seq<char> {
    "market sold "@ + decimal(sold as nat) + " "@ + item_name(item)
}

/// The market, stock and log after offering the warehouse stock of one item:
/// the stock gets an entry, and as many bars as it holds and the market still
/// asks for are sold, at ten each.
pub open spec fn sell_one(m: CompactMarketSnapshot, stock: Seq<Option<u32>>, log: Seq<Seq<char>>, item: ItemId)
    -> (CompactMarketSnapshot, Seq<Option<u32>>, Seq<Seq<char>>)
{
    let rank = crate::content::item_rank(item) as int;
    let have = entry_amount(stock[rank]);
    let sold = if have < m.remaining_demand { have } else { m.remaining_demand as nat };
    let after = stock.update(rank, Some((have - sold) as u32));
    if sold == 0 {
        (m, after, log)
    } else {
        (CompactMarketSnapshot {
            remaining_demand: (m.remaining_demand - sold) as u32,
            sold_total: (m.sold_total + sold) as u32,
            revenue: (m.revenue + 10 * sold) as u32,
            ..m
        }, after, log.push(sold_text(sold as u32, item)))
    }
}

/// A market tick: iron bars are offered, then copper bars, while demand is
/// left.
pub open spec fn sold_to_market(m: CompactMarketSnapshot, stock: Seq<Option<u32>>, log: Seq<Seq<char>>)
    -> (CompactMarketSnapshot, Seq<Option<u32>>, Seq<Seq<char>>)
{
    if m.remaining_demand == 0 {
        (m, stock, log)
    } else {
        let first = sell_one(m, stock, log, ItemId::IronBars);
        if first.0.remaining_demand == 0 {
            first
        } else {
            sell_one(first.0, first.1, first.2, ItemId::CopperBars)
        }
    }
}

/// The smaller of two numbers.
pub open spec fn least(a: int, b: int) -> int {
    if a < b { a } else { b }
}

/// A market tick sells iron bars first and copper bars next, each as far as
/// the warehouse holds them and demand is left: with `d` bars asked for,
/// `i` iron and `c` copper bars in the warehouse, it sells `min(i, d)` iron
/// bars and then `min(c, d - min(i, d))` copper bars. The warehouse loses
/// exactly what is sold, every other warehouse entry stays, demand falls and
/// the sales total rises by the bars sold, each bar earns ten, and one line
/// is logged for each item of which any bar was sold. Without demand nothing
/// changes.
pub proof fn law_market_sells_iron_then_copper(
    m: CompactMarketSnapshot,
    stock: Seq<Option<u32>>,
    log: Seq<Seq<char>>,
    after: (CompactMarketSnapshot, Seq<Option<u32>>, Seq<Seq<char>>),
)
    requires
        stock.len() == ITEM_COUNT,
        after == sold_to_market(m, stock, log),
        m.sold_total + entry_amount(stock[8]) + entry_amount(stock[4]) <= u32::MAX,
        m.revenue + 10 * (entry_amount(stock[8]) + entry_amount(stock[4])) <= u32::MAX,
    ensures
        m.remaining_demand == 0 ==> after == (m, stock, log),
        ({
            let d = m.remaining_demand as int;
            let iron = entry_amount(stock[crate::content::item_rank(IRON_BARS) as int]) as int;
            let copper = entry_amount(stock[crate::content::item_rank(COPPER_BARS) as int]) as int;
            let iron_sold = least(iron, d);
            let copper_sold = least(copper, d - iron_sold);
            &&& entry_amount(after.1[crate::content::item_rank(IRON_BARS) as int]) == iron - iron_sold
            &&& entry_amount(after.1[crate::content::item_rank(COPPER_BARS) as int]) == copper - copper_sold
            &&& after.1.len() == stock.len()
            &&& forall|k: int| 0 <= k < stock.len() && k != crate::content::item_rank(IRON_BARS)
                && k != crate::content::item_rank(COPPER_BARS) ==> #[trigger] after.1[k] == stock[k]
            &&& after.0.remaining_demand == d - iron_sold - copper_sold
            &&& after.0.sold_total == m.sold_total + iron_sold + copper_sold
            &&& after.0.revenue == m.revenue + 10 * (iron_sold + copper_sold)
            &&& after.0.cycle == m.cycle
            &&& after.0.demand_per_cycle == m.demand_per_cycle
            &&& after.2.len() == log.len() + (if iron_sold > 0 { 1int } else { 0int }) + (if copper_sold > 0 { 1int } else { 0int })
            &&& after.2.subrange(0, log.len() as int) == log
        }),
{
    assert(crate::content::item_rank(IRON_BARS) == 8);
    assert(crate::content::item_rank(COPPER_BARS) == 4);
    if m.remaining_demand > 0 {
        let first = sell_one(m, stock, log, ItemId::IronBars);
        assert(first.2.subrange(0, log.len() as int) =~= log);
        if first.0.remaining_demand > 0 {
            let second = sell_one(first.0, first.1, first.2, ItemId::CopperBars);
            assert(second.2.subrange(0, log.len() as int) =~= log);
        }
    }
}

/// The buildings allowed once `sold` bars were sold: two, and one more for
/// each threshold reached.
pub open spec fn unlocked(sold: u32) -> u16 {
    if sold >= 140 { 6 } else if sold >= 90 { 5 } else if sold >= 50 { 4 } else if sold >= 20 { 3 } else { 2 }
}

pub open spec fn allowance_text(limit: u16) -> Seq<char> {
    "building allowance increased to "@ + decimal(limit as nat)
}

/// The warehouse weight changes with one entry.
proof fn lemma_stock_update(stock: Seq<Option<u32>>, r: int, v: Option<u32>)
    requires
        0 <= r < stock.len(),
    ensures
        stock_weight(stock.update(r, v)) + entry_amount(stock[r]) * item_weight(Some(crate::content::item_at(r as nat)))
            == stock_weight(stock) + entry_amount(v) * item_weight(Some(crate::content::item_at(r as nat))),
    decreases stock.len(),
{
    let t = stock.update(r, v);
    if r == stock.len() - 1 {
        assert(t.drop_last() =~= stock.drop_last());
    } else {
        assert(t.drop_last() =~= stock.drop_last().update(r, v));
        lemma_stock_update(stock.drop_last(), r, v);
    }
}

proof fn lemma_stock_entry_le(stock: Seq<Option<u32>>, r: int)
    requires
        0 <= r < stock.len(),
    ensures
        entry_amount(stock[r]) * item_weight(Some(crate::content::item_at(r as nat))) <= stock_weight(stock),
    decreases stock.len(),
{
    if r < stock.len() - 1 {
        lemma_stock_entry_le(stock.drop_last(), r);
    }
}

proof fn lemma_stock_two_entries(stock: Seq<Option<u32>>, a: int, b: int)
    requires
        0 <= a < b < stock.len(),
    ensures
        entry_amount(stock[a]) * item_weight(Some(crate::content::item_at(a as nat)))
            + entry_amount(stock[b]) * item_weight(Some(crate::content::item_at(b as nat))) <= stock_weight(stock),
    decreases stock.len(),
{
    if b < stock.len() - 1 {
        lemma_stock_two_entries(stock.drop_last(), a, b);
    } else {
        lemma_stock_entry_le(stock.drop_last(), a);
    }
}

/// Two states that differ at most in their market, warehouse stock, building
/// limit and events.
pub open spec fn same_stock_and_places(a: CompactModel, b: CompactModel) -> bool {
    &&& a.tick == b.tick
    &&& a.roads == b.roads
    &&& a.deposits == b.deposits
    &&& a.buildings == b.buildings
    &&& a.trucks == b.trucks
}

impl CompactGame {
    fn advance_market_cycle(&mut self)
        requires
            old(self).wf(),
            old(self).tick % MARKET_CYCLE_TICKS == 0 ==> old(self).market.cycle + 5 <= u32::MAX,
        ensures
            final(self)@.market.cycle == old(self)@.market.cycle + (if old(self)@.tick % MARKET_CYCLE_TICKS == 0 { 1int } else { 0int }),
            extends(old(self)@.events, final(self)@.events),
            same_places(final(self)@, old(self)@),
            final(self).wf(),
            same_stock_and_places(final(self)@, old(self)@),
            final(self)@.stock == old(self)@.stock,
            final(self)@.building_limit == old(self)@.building_limit,
            old(self)@.tick % MARKET_CYCLE_TICKS == 0 ==> {
                &&& final(self)@.market == next_cycle(old(self)@.market)
                &&& final(self)@.events == old(self)@.events.push(cycle_text(final(self)@.market.cycle, final(self)@.market.demand_per_cycle))
            },
            old(self)@.tick % MARKET_CYCLE_TICKS != 0 ==> final(self)@ == old(self)@,
            goods_weight(final(self)@) == goods_weight(old(self)@),
            final(self)@.market.sold_total == old(self)@.market.sold_total,
    {
        if self.tick % MARKET_CYCLE_TICKS != 0 {
            return;
        }
        self.market.cycle = self.market.cycle + 1;
        self.market.demand_per_cycle = 4 + self.market.cycle;
        self.market.remaining_demand = self.market.remaining_demand.saturating_add(self.market.demand_per_cycle);
        let mut line = String::new();
        push_str(&mut line, "market cycle ");
        push_u64(&mut line, self.market.cycle as u64);
        push_str(&mut line, " demand +");
        push_u64(&mut line, self.market.demand_per_cycle as u64);
        proof {
            lemma_texts_push(self.events@, line);
            reveal_strlit("market cycle ");
            reveal_strlit(" demand +");
            assert(line@ =~= cycle_text(self.market.cycle, self.market.demand_per_cycle));
        }
        self.events.push(line);
        proof {
            assert(self@.events =~= old(self)@.events.push(cycle_text(self.market.cycle, self.market.demand_per_cycle)));
            assert(goods_weight(self@) == goods_weight(old(self)@));
        }
    }

    fn advance_mining(&mut self)
        requires
            old(self).wf(),
        ensures
            extends(old(self)@.events, final(self)@.events),
            same_places(final(self)@, old(self)@),
            final(self)@.market == old(self)@.market,
            final(self)@.building_limit == old(self)@.building_limit,
            final(self).wf(),
            old(self)@.tick % 2 != 0 ==> final(self)@ == old(self)@,
            old(self)@.tick % 2 == 0 ==> {
                &&& final(self)@.deposits.len() == old(self)@.deposits.len()
                &&& forall|i: int| 0 <= i < old(self)@.deposits.len() ==> #[trigger] final(self)@.deposits[i] == mined(old(self)@.deposits[i])
                &&& final(self)@ == (CompactModel { deposits: final(self)@.deposits, ..old(self)@ })
            },
            goods_weight(final(self)@) == goods_weight(old(self)@),
    {
        if self.tick % 2 != 0 {
            return;
        }
        let n = self.deposits.len();
        let mut k: usize = 0;
        while k < n
            invariant
                n == self.deposits@.len(),
                n == old(self).deposits@.len(),
                k <= n,
                forall|j: int| 0 <= j < k ==> #[trigger] self.deposits@[j] == mined(old(self).deposits@[j]),
                forall|j: int| k <= j < n ==> #[trigger] self.deposits@[j] == old(self).deposits@[j],
                *self == (CompactGame { deposits: self.deposits, ..*old(self) }),
            decreases n - k,
        {
            let d = self.deposits[k];
            if d.remaining > 0 && d.stockpile < 60 {
                self.deposits.set(k, CompactDeposit { remaining: d.remaining - 1, stockpile: d.stockpile + 1, ..d });
            }
            k = k + 1;
        }
        proof {
            lemma_sum_pointwise(self.deposits@, old(self).deposits@, deposit_weights(), deposit_weights());
            assert(self@.deposits == self.deposits@);
            assert forall|i: int| 0 <= i < self.deposits@.len() implies in_bounds((#[trigger] self.deposits@[i]).position) by {
                assert(self.deposits@[i].position == old(self).deposits@[i].position);
            }
            assert(self.wf());
        }
    }
}

proof fn lemma_crafted_weight(b: CompactBuilding)
    ensures
        building_weight(crafted(b)) <= building_weight(b),
        crafted(b).position == b.position,
        crafted(b).id == b.id,
        crafted(b).recipe == b.recipe,
{
}

proof fn lemma_production_log_step(bs: Seq<CompactBuilding>, k: int)
    requires
        0 <= k < bs.len(),
    ensures
        production_log(bs.take(k + 1)) == (if finishes(bs[k]) {
            production_log(bs.take(k)).push(produced_text(bs[k].id, recipe_output(bs[k].recipe->0)))
        } else {
            production_log(bs.take(k))
        }),
{
    assert(bs.take(k + 1).drop_last() =~= bs.take(k));
}

impl CompactGame {
    fn advance_production(&mut self)
        requires
            old(self).wf(),
        ensures
            extends(old(self)@.events, final(self)@.events),
            same_places(final(self)@, old(self)@),
            final(self).wf(),
            final(self)@.buildings.len() == old(self)@.buildings.len(),
            forall|i: int| 0 <= i < old(self)@.buildings.len() ==> #[trigger] final(self)@.buildings[i] == crafted(old(self)@.buildings[i]),
            final(self)@.events == old(self)@.events + production_log(old(self)@.buildings),
            final(self)@ == (CompactModel { buildings: final(self)@.buildings, events: final(self)@.events, ..old(self)@ }),
            goods_weight(final(self)@) <= goods_weight(old(self)@),
    {
        let n = self.buildings.len();
        let mut k: usize = 0;
        while k < n
            invariant
                n == self.buildings@.len(),
                n == old(self).buildings@.len(),
                k <= n,
                forall|j: int| 0 <= j < k ==> #[trigger] self.buildings@[j] == crafted(old(self).buildings@[j]),
                forall|j: int| k <= j < n ==> #[trigger] self.buildings@[j] == old(self).buildings@[j],
                texts(self.events@) == texts(old(self).events@) + production_log(old(self).buildings@.take(k as int)),
                *self == (CompactGame { buildings: self.buildings, events: self.events, ..*old(self) }),
            decreases n - k,
        {
            proof {
                lemma_production_log_step(old(self).buildings@, k as int);
            }
            let mut b = self.buildings[k];
            match b.recipe {
                None => {},
                Some(recipe) => {
                    if b.craft_progress == 0 && b.input_stock >= 3 {
                        b.input_stock = b.input_stock - 3;
                        b.craft_progress = 4;
                    }
                    if b.craft_progress > 0 {
                        b.craft_progress = b.craft_progress - 1;
                        if b.craft_progress == 0 {
                            b.output_stock = b.output_stock.saturating_add(10);
                            let mut line = String::new();
                            push_str(&mut line, "building ");
                            push_u64(&mut line, b.id as u64);
                            push_str(&mut line, " produced 10 ");
                            push_str(&mut line, recipe.output().as_str());
                            proof {
                                lemma_texts_push(self.events@, line);
                                reveal_strlit("building ");
                                reveal_strlit(" produced 10 ");
                                assert(line@ =~= produced_text(b.id, recipe_output(recipe)));
                            }
                            self.events.push(line);
                        }
                    }
                },
            }
            self.buildings.set(k, b);
            proof {
                assert(texts(self.events@) =~= texts(old(self).events@) + production_log(old(self).buildings@.take(k as int + 1)));
            }
            k = k + 1;
        }
        proof {
            assert(old(self).buildings@.take(n as int) =~= old(self).buildings@);
            assert forall|i: int| 0 <= i < n implies building_weights()(#[trigger] self.buildings@[i]) <= building_weights()(old(self).buildings@[i]) by {
                lemma_crafted_weight(old(self).buildings@[i]);
            }
            lemma_sum_le(self.buildings@, old(self).buildings@, building_weights(), building_weights());
            assert forall|i: int| 0 <= i < self.buildings@.len() implies in_bounds((#[trigger] self.buildings@[i]).position) by {
                lemma_crafted_weight(old(self).buildings@[i]);
            }
        }
    }

    fn sell_to_market(&mut self)
        requires
            old(self).wf(),
        ensures
            final(self)@.market.demand_per_cycle == old(self)@.market.demand_per_cycle,
            final(self)@.market.revenue == old(self)@.market.revenue + 10 * (final(self)@.market.sold_total - old(self)@.market.sold_total),
            final(self)@.market.cycle == old(self)@.market.cycle,
            extends(old(self)@.events, final(self)@.events),
            same_places(final(self)@, old(self)@),
            final(self)@.market.sold_total >= old(self)@.market.sold_total,
            final(self).wf(),
            same_stock_and_places(final(self)@, old(self)@),
            final(self)@.building_limit == old(self)@.building_limit,
            (final(self)@.market, final(self)@.stock, final(self)@.events) == sold_to_market(old(self)@.market, old(self)@.stock, old(self)@.events),
            goods_weight(final(self)@) == goods_weight(old(self)@),
            ({
                let d = old(self)@.market.remaining_demand as int;
                let iron = entry_amount(old(self)@.stock[crate::content::item_rank(IRON_BARS) as int]) as int;
                let copper = entry_amount(old(self)@.stock[crate::content::item_rank(COPPER_BARS) as int]) as int;
                let iron_sold = least(iron, d);
                let copper_sold = least(copper, d - iron_sold);
                &&& entry_amount(final(self)@.stock[crate::content::item_rank(IRON_BARS) as int]) == iron - iron_sold
                &&& entry_amount(final(self)@.stock[crate::content::item_rank(COPPER_BARS) as int]) == copper - copper_sold
                &&& final(self)@.market.remaining_demand == d - iron_sold - copper_sold
                &&& final(self)@.market.sold_total == old(self)@.market.sold_total + iron_sold + copper_sold
                &&& final(self)@.market.revenue == old(self)@.market.revenue + 10 * (iron_sold + copper_sold)
            }),
    {
        proof {
            self.lemma_wf_roads();
            lemma_stock_two_entries(self@.stock, 4, 8);
            assert(crate::content::item_at(4) == ItemId::CopperBars);
            assert(crate::content::item_at(8) == ItemId::IronBars);
        }
        let ghost before = self@;
        if self.market.remaining_demand == 0 {
            proof { law_market_sells_iron_then_copper(before.market, before.stock, before.events, (self@.market, self@.stock, self@.events)); }
            return;
        }
        self.sell_item(IRON_BARS);
        if self.market.remaining_demand == 0 {
            proof { law_market_sells_iron_then_copper(before.market, before.stock, before.events, (self@.market, self@.stock, self@.events)); }
            return;
        }
        self.sell_item(COPPER_BARS);
        proof { law_market_sells_iron_then_copper(before.market, before.stock, before.events, (self@.market, self@.stock, self@.events)); }
    }

    fn sell_item(&mut self, item: ItemId)
        requires
            old(self).wf(),
            item == ItemId::IronBars || item == ItemId::CopperBars,
        ensures
            final(self)@.market.demand_per_cycle == old(self)@.market.demand_per_cycle,
            final(self)@.market.revenue == old(self)@.market.revenue + 10 * (final(self)@.market.sold_total - old(self)@.market.sold_total),
            final(self)@.market.cycle == old(self)@.market.cycle,
            extends(old(self)@.events, final(self)@.events),
            final(self)@.market.sold_total >= old(self)@.market.sold_total,
            final(self).wf(),
            same_stock_and_places(final(self)@, old(self)@),
            final(self)@.building_limit == old(self)@.building_limit,
            (final(self)@.market, final(self)@.stock, final(self)@.events) == sell_one(old(self)@.market, old(self)@.stock, old(self)@.events, item),
            goods_weight(final(self)@) == goods_weight(old(self)@),
    {
        let rank = item.index();
        let have: u32 = match self.warehouse_stock[rank] {
            Some(n) => n,
            None => 0,
        };
        let sold: u32 = if have < self.market.remaining_demand { have } else { self.market.remaining_demand };
        let ghost w = item_weight(Some(crate::content::item_at(rank as nat)));
        proof {
            crate::content::lemma_item_rank_bijective(item);
            assert(w == 33);
            lemma_stock_entry_le(self.warehouse_stock@, rank as int);
            lemma_stock_update(self.warehouse_stock@, rank as int, Some((have - sold) as u32));
            assert(goods_weight(self@) >= stock_weight(self@.stock) + 3 * self.market.revenue + 3 * self.market.sold_total);
        }
        self.warehouse_stock.set(rank, Some(have - sold));
        if sold == 0 {
            proof {
                assert(goods_weight(self@) == goods_weight(old(self)@));
            }
            return;
        }
        self.market.remaining_demand = self.market.remaining_demand - sold;
        self.market.sold_total = self.market.sold_total + sold;
        self.market.revenue = self.market.revenue + sold * 10;
        let mut line = String::new();
        push_str(&mut line, "market sold ");
        push_u64(&mut line, sold as u64);
        push_str(&mut line, " ");
        push_str(&mut line, item.as_str());
        proof {
            lemma_texts_push(self.events@, line);
            reveal_strlit("market sold ");
            reveal_strlit(" ");
            assert(line@ =~= sold_text(sold, item));
        }
        self.events.push(line);
        proof {
            assert(self@.events =~= old(self)@.events.push(sold_text(sold, item)));
        }
    }

    fn advance_allowance(&mut self)
        requires
            old(self).wf(),
        ensures
            extends(old(self)@.events, final(self)@.events),
            same_places(final(self)@, old(self)@),
            final(self).wf(),
            final(self)@.building_limit == (if unlocked(old(self)@.market.sold_total) > old(self)@.building_limit {
                unlocked(old(self)@.market.sold_total)
            } else {
                old(self)@.building_limit
            }),
            logged(old(self)@.events, final(self)@.events, unlocked(old(self)@.market.sold_total) > old(self)@.building_limit,
                allowance_text(unlocked(old(self)@.market.sold_total))),
            final(self)@ == (CompactModel { building_limit: final(self)@.building_limit, events: final(self)@.events, ..old(self)@ }),
    {
        let mut allowed: u16 = 2;
        let mut k: usize = 0;
        let mut reached = true;
        while k < 4 && reached
            invariant
                k <= 4,
                allowed == 2 + k,
                forall|j: int| 0 <= j < k ==> (#[trigger] unlock_threshold(j))->0 <= self.market.sold_total,
                !reached ==> k < 4 && self.market.sold_total < unlock_threshold(k as int)->0,
            decreases 4 - k + (if reached { 1int } else { 0int }),
        {
            match building_unlock_sales(k) {
                Some(threshold) => {
                    if self.market.sold_total < threshold {
                        reached = false;
                    } else {
                        allowed = allowed + 1;
                        k = k + 1;
                    }
                },
                None => {
                    k = k + 1;
                },
            }
        }
        proof {
            if k > 0 { assert(unlock_threshold(0)->0 <= self.market.sold_total); }
            if k > 1 { assert(unlock_threshold(1)->0 <= self.market.sold_total); }
            if k > 2 { assert(unlock_threshold(2)->0 <= self.market.sold_total); }
            if k > 3 { assert(unlock_threshold(3)->0 <= self.market.sold_total); }
            assert(allowed == unlocked(self.market.sold_total));
        }
        if allowed > self.building_limit {
            self.building_limit = allowed;
            let mut line = String::new();
            push_str(&mut line, "building allowance increased to ");
            push_u64(&mut line, allowed as u64);
            proof {
                lemma_texts_push(self.events@, line);
                reveal_strlit("building allowance increased to ");
                assert(line@ =~= allowance_text(allowed));
            }
            self.events.push(line);
            proof {
                assert(self@.events =~= old(self)@.events.push(allowance_text(allowed)));
            }
        }
    }
}

/// A truck with the same fields and route.
pub open spec fn same_truck(a: CompactTruck, b: CompactTruck) -> bool {
    &&& a.id == b.id
    &&& a.position == b.position
    &&& a.cargo_item == b.cargo_item
    &&& a.cargo_quantity == b.cargo_quantity
    &&& a.task == b.task
    &&& a.route@ == b.route@
}

/// Two states with the same roads, the same deposits, buildings and trucks
/// at the same places under the same ids, and the same tick, market, limit
/// and log; only stocks, cargo, tasks, routes and truck positions may differ.
pub open spec fn same_layout(a: CompactModel, b: CompactModel) -> bool {
    &&& a.tick == b.tick
    &&& a.roads == b.roads
    &&& a.market == b.market
    &&& a.building_limit == b.building_limit
    &&& a.events == b.events
    &&& a.stock.len() == b.stock.len()
    &&& a.deposits.len() == b.deposits.len()
    &&& forall|i: int| 0 <= i < a.deposits.len() ==> (#[trigger] a.deposits[i]).position == b.deposits[i].position
        && a.deposits[i].item == b.deposits[i].item && a.deposits[i].remaining == b.deposits[i].remaining
        && a.deposits[i].stockpile <= b.deposits[i].stockpile
    &&& a.buildings.len() == b.buildings.len()
    &&& forall|i: int| 0 <= i < a.buildings.len() ==> (#[trigger] a.buildings[i]).position == b.buildings[i].position
        && a.buildings[i].id == b.buildings[i].id && a.buildings[i].recipe == b.buildings[i].recipe
    &&& a.trucks.len() == b.trucks.len()
    &&& forall|i: int| 0 <= i < a.trucks.len() ==> (#[trigger] a.trucks[i]).id == b.trucks[i].id
}

fn copy_truck(t: &CompactTruck) -> (r: CompactTruck)
    ensures
        same_truck(r, *t),
{
    CompactTruck {
        id: t.id,
        position: t.position,
        cargo_item: t.cargo_item,
        cargo_quantity: t.cargo_quantity,
        task: t.task,
        route: copy_cells(&t.route),
    }
}

impl CompactGame {
    proof fn lemma_layout_wf(&self, before: &CompactGame)
        requires
            before.wf(),
            same_layout(self@, before@),
            self.roads@ == before.roads@,
            forall|i: int| 0 <= i < self.trucks@.len() ==> {
                let t = #[trigger] self.trucks@[i];
                &&& self.roads@.contains(t.position)
                &&& road_walk(self.roads@.to_set(), t.position, t.route@)
            },
            goods_weight(self@) <= goods_weight(before@),
        ensures
            self.wf(),
    {
        reveal(trucks_on_roads);
        assert forall|i: int| 0 <= i < self.deposits@.len() implies in_bounds((#[trigger] self.deposits@[i]).position) by {
            assert(self@.deposits[i].position == before@.deposits[i].position);
        }
        assert forall|i: int| 0 <= i < self.buildings@.len() implies in_bounds((#[trigger] self.buildings@[i]).position) by {
            assert(self@.buildings[i].position == before@.buildings[i].position);
        }
    }

    /// Puts a truck back at its index; the other trucks stay as they are.
    fn put_truck(&mut self, i: usize, t: CompactTruck)
        requires
            i < old(self).trucks@.len(),
        ensures
            final(self).trucks@ == old(self).trucks@.update(i as int, t),
            *final(self) == (CompactGame { trucks: final(self).trucks, ..*old(self) }),
    {
        self.trucks.set(i, t);
    }

    /// Stores the truck at index `i` back and checks the invariant, where the
    /// truck stands where it stood, its route is a walk over roads from
    /// there, and nothing got heavier.
    proof fn lemma_truck_put(&self, before: &CompactGame, i: int)
        requires
            before.wf(),
            0 <= i < before.trucks@.len(),
            same_layout(self@, before@),
            self.roads@ == before.roads@,
            forall|j: int| 0 <= j < before.trucks@.len() && j != i ==> #[trigger] self.trucks@[j] == before.trucks@[j],
            self@.roads.contains(self.trucks@[i].position),
            road_walk(self.roads@.to_set(), self.trucks@[i].position, self.trucks@[i].route@),
            goods_weight(self@) <= goods_weight(before@),
        ensures
            self.wf(),
    {
        reveal(trucks_on_roads);
        assert forall|j: int| 0 <= j < self.trucks@.len() implies {
            let t = #[trigger] self.trucks@[j];
            &&& self.roads@.contains(t.position)
            &&& road_walk(self.roads@.to_set(), t.position, t.route@)
        } by {
            if j != i {
                assert(self.trucks@[j] == before.trucks@[j]);
            }
        }
        self.lemma_layout_wf(before);
    }

    /// Sets the truck at index `i` idle, keeping or dropping its cargo.
    fn set_idle(&mut self, i: usize, keep_cargo: bool)
        requires
            old(self).wf(),
            i < old(self).trucks@.len(),
        ensures
            final(self).roads == old(self).roads,
            final(self).wf(),
            same_layout(final(self)@, old(self)@),
            goods_weight(final(self)@) <= goods_weight(old(self)@),
            forall|j: int| 0 <= j < old(self)@.trucks.len() && j != i ==> #[trigger] final(self)@.trucks[j] == old(self)@.trucks[j],
            final(self)@.trucks[i as int].position == old(self)@.trucks[i as int].position,
            final(self)@.trucks[i as int].task == CompactTruckTask::Idle,
            final(self)@.trucks[i as int].route@ == old(self)@.trucks[i as int].route@,
            keep_cargo ==> final(self)@.trucks[i as int].cargo_item == old(self)@.trucks[i as int].cargo_item
                && final(self)@.trucks[i as int].cargo_quantity == old(self)@.trucks[i as int].cargo_quantity,
            !keep_cargo ==> final(self)@.trucks[i as int].cargo_item is None && final(self)@.trucks[i as int].cargo_quantity == 0,
            final(self)@.deposits == old(self)@.deposits,
            final(self)@.buildings == old(self)@.buildings,
            final(self)@.stock == old(self)@.stock,
    {
        let ghost before = *self;
        let mut truck = copy_truck(&self.trucks[i]);
        truck.task = CompactTruckTask::Idle;
        if !keep_cargo {
            truck.cargo_item = None;
            truck.cargo_quantity = 0;
        }
        proof {
            before.lemma_wf_roads();
            lemma_sum_update(self.trucks@, i as int, truck, truck_weights());
        }
        self.put_truck(i, truck);
        proof {
            self.lemma_truck_put(&before, i as int);
        }
    }

    /// Loads ore at a deposit and heads for the building that wants it.
    fn collect_raw(&mut self, i: usize, deposit: u16, building: u16)
        requires
            old(self).wf(),
            i < old(self).trucks@.len(),
        ensures
            final(self).roads == old(self).roads,
            final(self).wf(),
            same_layout(final(self)@, old(self)@),
            goods_weight(final(self)@) <= goods_weight(old(self)@),
            forall|j: int| 0 <= j < old(self)@.trucks.len() && j != i ==> #[trigger] final(self)@.trucks[j] == old(self)@.trucks[j],
            final(self)@.trucks[i as int].position == old(self)@.trucks[i as int].position,
            final(self)@.trucks[i as int].task == CompactTruckTask::Idle
                || final(self)@.trucks[i as int].task == (CompactTruckTask::DeliverRaw { building }),
    {
        let di = deposit as usize;
        if di >= self.deposits.len() {
            self.set_idle(i, true);
            return;
        }
        let d = self.deposits[di];
        let moved: u32 = if d.stockpile < TRUCK_CAPACITY { d.stockpile } else { TRUCK_CAPACITY };
        if moved == 0 {
            self.set_idle(i, true);
            return;
        }
        match self.route_to_building(self.trucks[i].position, building) {
            Some(route) => {
                self.load_ore(i, di, moved, route, building);
            },
            None => {
                self.set_idle(i, false);
            },
        }
    }

    /// Moves ore from a deposit's stockpile onto a truck and sends the truck
    /// along a route to the building.
    fn load_ore(&mut self, i: usize, di: usize, moved: u32, route: Vec<GridPosition>, building: u16)
        requires
            old(self).wf(),
            i < old(self).trucks@.len(),
            di < old(self).deposits@.len(),
            moved <= old(self).deposits@[di as int].stockpile,
            road_walk(old(self)@.roads, old(self).trucks@[i as int].position, route@),
        ensures
            final(self).roads == old(self).roads,
            final(self).wf(),
            same_layout(final(self)@, old(self)@),
            goods_weight(final(self)@) <= goods_weight(old(self)@),
            forall|j: int| 0 <= j < old(self)@.trucks.len() && j != i ==> #[trigger] final(self)@.trucks[j] == old(self)@.trucks[j],
            final(self)@.trucks[i as int].position == old(self)@.trucks[i as int].position,
            final(self)@.trucks[i as int].task == (CompactTruckTask::DeliverRaw { building }),
    {
        let ghost before = *self;
        let d = self.deposits[di];
        let mut truck = copy_truck(&self.trucks[i]);
        let taken = CompactDeposit { stockpile: d.stockpile - moved, ..d };
        proof {
            before.lemma_wf_roads();
            lemma_sum_update(self.deposits@, di as int, taken, deposit_weights());
        }
        self.deposits.set(di, taken);
        truck.cargo_item = Some(d.item);
        truck.cargo_quantity = moved;
        truck.route = route;
        truck.task = CompactTruckTask::DeliverRaw { building };
        proof {
            lemma_sum_update(self.trucks@, i as int, truck, truck_weights());
            let w = item_weight(Some(d.item));
            assert(w <= 110);
            assert(moved * w <= 110 * moved) by (nonlinear_arith)
                requires
                    w <= 110;
            assert(truck_weight(truck) <= 110 * moved);
            assert forall|j: int| 0 <= j < self@.deposits.len() implies (#[trigger] self@.deposits[j]).position == before@.deposits[j].position
                && self@.deposits[j].item == before@.deposits[j].item && self@.deposits[j].remaining == before@.deposits[j].remaining by {
            }
        }
        self.put_truck(i, truck);
        proof {
            self.lemma_truck_put(&before, i as int);
        }
    }

    /// Unloads ore into the building the truck was sent to, if the building
    /// is set to a recipe that takes it.
    fn deliver_raw(&mut self, i: usize, building: u16)
        requires
            old(self).wf(),
            i < old(self).trucks@.len(),
        ensures
            final(self).roads == old(self).roads,
            final(self).wf(),
            same_layout(final(self)@, old(self)@),
            goods_weight(final(self)@) <= goods_weight(old(self)@),
            forall|j: int| 0 <= j < old(self)@.trucks.len() && j != i ==> #[trigger] final(self)@.trucks[j] == old(self)@.trucks[j],
            final(self)@.trucks[i as int].position == old(self)@.trucks[i as int].position,
            final(self)@.trucks[i as int].task == CompactTruckTask::Idle,
    {
        let mut k: usize = 0;
        while k < self.buildings.len() && self.buildings[k].id != building
            invariant
                k <= self.buildings@.len(),
                forall|j: int| 0 <= j < k ==> (#[trigger] self.buildings@[j]).id != building,
            decreases self.buildings@.len() - k,
        {
            k = k + 1;
        }
        if k == self.buildings.len() {
            self.set_idle(i, true);
            return;
        }
        let target = self.buildings[k];
        let wanted = match target.recipe {
            Some(recipe) => Some(recipe.input()),
            None => None,
        };
        if wanted != self.trucks[i].cargo_item {
            self.set_idle(i, true);
            return;
        }
        let ghost before = *self;
        let quantity = self.trucks[i].cargo_quantity;
        let filled = CompactBuilding { input_stock: target.input_stock.saturating_add(quantity), ..target };
        proof {
            before.lemma_wf_roads();
            assert(item_weight(self.trucks@[i as int].cargo_item) == 110) by {
                match target.recipe {
                    Some(recipe) => { assert(self.trucks@[i as int].cargo_item == Some(recipe_input(recipe))); },
                    None => {},
                }
            }
            lemma_sum_update(self.buildings@, k as int, filled, building_weights());
        }
        self.buildings.set(k, filled);
        let mut truck = copy_truck(&self.trucks[i]);
        truck.cargo_item = None;
        truck.cargo_quantity = 0;
        truck.task = CompactTruckTask::Idle;
        proof {
            lemma_sum_update(self.trucks@, i as int, truck, truck_weights());
        }
        self.put_truck(i, truck);
        proof {
            self.lemma_truck_put(&before, i as int);
        }
    }

    /// Loads bars at the building the truck was sent to and heads for the
    /// warehouse.
    fn collect_output(&mut self, i: usize, building: u16)
        requires
            old(self).wf(),
            i < old(self).trucks@.len(),
        ensures
            final(self).roads == old(self).roads,
            final(self).wf(),
            same_layout(final(self)@, old(self)@),
            goods_weight(final(self)@) <= goods_weight(old(self)@),
            forall|j: int| 0 <= j < old(self)@.trucks.len() && j != i ==> #[trigger] final(self)@.trucks[j] == old(self)@.trucks[j],
            final(self)@.trucks[i as int].position == old(self)@.trucks[i as int].position,
            final(self)@.trucks[i as int].task == CompactTruckTask::Idle
                || final(self)@.trucks[i as int].task == CompactTruckTask::DeliverToWarehouse,
    {
        let mut k: usize = 0;
        while k < self.buildings.len() && self.buildings[k].id != building
            invariant
                k <= self.buildings@.len(),
                forall|j: int| 0 <= j < k ==> (#[trigger] self.buildings@[j]).id != building,
            decreases self.buildings@.len() - k,
        {
            k = k + 1;
        }
        if k == self.buildings.len() {
            self.set_idle(i, true);
            return;
        }
        let source = self.buildings[k];
        let recipe = match source.recipe {
            Some(recipe) => recipe,
            None => {
                self.set_idle(i, true);
                return;
            },
        };
        let moved: u32 = if source.output_stock < TRUCK_CAPACITY { source.output_stock } else { TRUCK_CAPACITY };
        if moved == 0 {
            self.set_idle(i, true);
            return;
        }
        match self.route_to_object(self.trucks[i].position, CompactGame::warehouse_position()) {
            Some(route) => {
                let ghost before = *self;
                let mut truck = copy_truck(&self.trucks[i]);
                let emptied = CompactBuilding { output_stock: source.output_stock - moved, ..source };
                proof {
                    before.lemma_wf_roads();
                    lemma_sum_update(self.buildings@, k as int, emptied, building_weights());
                }
                self.buildings.set(k, emptied);
                truck.cargo_item = Some(recipe.output());
                truck.cargo_quantity = moved;
                truck.route = route;
                truck.task = CompactTruckTask::DeliverToWarehouse;
                proof {
                    lemma_sum_update(self.trucks@, i as int, truck, truck_weights());
                    assert(truck_weight(truck) == 33 * moved);
                }
                self.put_truck(i, truck);
                proof {
                    self.lemma_truck_put(&before, i as int);
                }
            },
            None => {
                self.set_idle(i, false);
            },
        }
    }

    /// Unloads the truck's cargo into the warehouse.
    fn deliver_to_warehouse(&mut self, i: usize)
        requires
            old(self).wf(),
            i < old(self).trucks@.len(),
        ensures
            final(self).roads == old(self).roads,
            final(self).wf(),
            same_layout(final(self)@, old(self)@),
            goods_weight(final(self)@) <= goods_weight(old(self)@),
            forall|j: int| 0 <= j < old(self)@.trucks.len() && j != i ==> #[trigger] final(self)@.trucks[j] == old(self)@.trucks[j],
            final(self)@.trucks[i as int].position == old(self)@.trucks[i as int].position,
            final(self)@.trucks[i as int].task == CompactTruckTask::Idle,
    {
        match self.trucks[i].cargo_item {
            Some(item) => {
                let ghost before = *self;
                let quantity = self.trucks[i].cargo_quantity;
                let rank = item.index();
                let have: u32 = match self.warehouse_stock[rank] {
                    Some(n) => n,
                    None => 0,
                };
                proof {
                    before.lemma_wf_roads();
                    crate::content::lemma_item_rank_bijective(item);
                    lemma_stock_entry_le(self.warehouse_stock@, rank as int);
                    lemma_sum_item_le(self.trucks@, i as int, truck_weights());
                    let w = item_weight(Some(crate::content::item_at(rank as nat)));
                    assert(w == item_weight(self.trucks@[i as int].cargo_item));
                    assert(entry_amount(self.warehouse_stock@[rank as int]) == have);
                    assert(have * w + quantity * w <= goods_limit());
                    assert(w >= 33);
                    assert(have + quantity <= u32::MAX) by (nonlinear_arith)
                        requires
                            have * w + quantity * w <= 3 * 4294967295,
                            w >= 33;
                    lemma_stock_update(self.warehouse_stock@, rank as int, Some((have + quantity) as u32));
                    assert((have + quantity) * w == have * w + quantity * w) by (nonlinear_arith);
                    assert(truck_weight(self.trucks@[i as int]) == quantity * w);
                }
                self.warehouse_stock.set(rank, Some(have + quantity));
                let mut truck = copy_truck(&self.trucks[i]);
                truck.cargo_item = None;
                truck.cargo_quantity = 0;
                truck.task = CompactTruckTask::Idle;
                proof {
                    lemma_sum_update(self.trucks@, i as int, truck, truck_weights());
                }
                self.put_truck(i, truck);
                proof {
                    self.lemma_truck_put(&before, i as int);
                }
            },
            None => {
                self.set_idle(i, false);
            },
        }
    }

    /// Finishes what an arrived truck set out to do: loads ore at a deposit
    /// and heads for the building, unloads ore into a building, loads bars at
    /// a building and heads for the warehouse, or unloads bars into the
    /// warehouse. A truck that cannot go on is set idle; ore or bars it could
    /// not take anywhere stay where they were.
    fn complete_truck_task(&mut self, i: usize)
        requires
            old(self).wf(),
            i < old(self).trucks@.len(),
        ensures
            final(self).roads == old(self).roads,
            final(self).wf(),
            same_layout(final(self)@, old(self)@),
            goods_weight(final(self)@) <= goods_weight(old(self)@),
            forall|j: int| 0 <= j < old(self)@.trucks.len() && j != i ==> #[trigger] final(self)@.trucks[j] == old(self)@.trucks[j],
            final(self)@.trucks[i as int].position == old(self)@.trucks[i as int].position,
            old(self)@.trucks[i as int].task == CompactTruckTask::Idle ==> final(self)@ == old(self)@,
            old(self)@.trucks[i as int].task matches CompactTruckTask::CollectRaw { building, .. } ==>
                final(self)@.trucks[i as int].task == CompactTruckTask::Idle
                || final(self)@.trucks[i as int].task == (CompactTruckTask::DeliverRaw { building }),
            old(self)@.trucks[i as int].task is DeliverRaw ==> final(self)@.trucks[i as int].task == CompactTruckTask::Idle,
            old(self)@.trucks[i as int].task is CollectOutput ==>
                final(self)@.trucks[i as int].task == CompactTruckTask::Idle
                || final(self)@.trucks[i as int].task == CompactTruckTask::DeliverToWarehouse,
            old(self)@.trucks[i as int].task is DeliverToWarehouse ==> final(self)@.trucks[i as int].task == CompactTruckTask::Idle,
    {
        match self.trucks[i].task {
            CompactTruckTask::Idle => {},
            CompactTruckTask::CollectRaw { deposit, building } => self.collect_raw(i, deposit, building),
            CompactTruckTask::DeliverRaw { building } => self.deliver_raw(i, building),
            CompactTruckTask::CollectOutput { building } => self.collect_output(i, building),
            CompactTruckTask::DeliverToWarehouse => self.deliver_to_warehouse(i),
        }
    }
}

proof fn lemma_walk_rest(roads: Set<GridPosition>, start: GridPosition, path: Seq<GridPosition>)
    requires
        road_walk(roads, start, path),
        path.len() > 0,
    ensures
        roads.contains(path[0]),
        road_walk(roads, path[0], path.drop_first()),
{
    let rest = path.drop_first();
    assert forall|i: int| 0 <= i < rest.len() implies roads.contains(#[trigger] rest[i])
        && adjacent(if i == 0 { path[0] } else { rest[i - 1] }, rest[i]) by {
        assert(rest[i] == path[i + 1]);
        assert(roads.contains(path[i + 1]));
        if i > 0 { assert(rest[i - 1] == path[i]); }
    }
}

/// A truck after driving one cell along its route.
pub open spec fn drove(before: CompactTruck, after: CompactTruck) -> bool {
    &&& after.id == before.id
    &&& after.position == before.route@[0]
    &&& after.route@ == before.route@.drop_first()
    &&& after.cargo_item == before.cargo_item
    &&& after.cargo_quantity == before.cargo_quantity
    &&& after.task == before.task
}

impl CompactGame {
    /// Every truck with a route drives one cell along it; every other truck
    /// finishes its task.
    fn advance_trucks(&mut self)
        requires
            old(self).wf(),
        ensures
            extends(old(self)@.events, final(self)@.events),
            same_places(final(self)@, old(self)@),
            final(self).wf(),
            same_layout(final(self)@, old(self)@),
            goods_weight(final(self)@) <= goods_weight(old(self)@),
            forall|j: int| 0 <= j < old(self)@.trucks.len() && old(self)@.trucks[j].route@.len() > 0
                ==> drove(old(self)@.trucks[j], #[trigger] final(self)@.trucks[j]),
    {
        let n = self.trucks.len();
        let mut i: usize = 0;
        while i < n
            invariant
                self.wf(),
                n == self.trucks@.len(),
                n == old(self).trucks@.len(),
                i <= n,
                same_layout(self@, old(self)@),
                self.roads@ == old(self).roads@,
                goods_weight(self@) <= goods_weight(old(self)@),
                forall|j: int| 0 <= j < i && old(self)@.trucks[j].route@.len() > 0 ==> drove(old(self)@.trucks[j], #[trigger] self@.trucks[j]),
                forall|j: int| i <= j < n ==> #[trigger] self@.trucks[j] == old(self)@.trucks[j],
            decreases n - i,
        {
            if self.trucks[i].route.len() > 0 {
                let ghost before = *self;
                proof {
                    before.lemma_wf_roads();
                    lemma_walk_rest(self@.roads, self.trucks@[i as int].position, self.trucks@[i as int].route@);
                }
                let mut truck = copy_truck(&self.trucks[i]);
                let next = truck.route.remove(0);
                if contains_cell(&self.roads, next) {
                    truck.position = next;
                } else {
                    truck.route = Vec::new();
                    truck.task = CompactTruckTask::Idle;
                }
                proof {
                    lemma_sum_update(self.trucks@, i as int, truck, truck_weights());
                    assert(truck.route@ == before.trucks@[i as int].route@.drop_first());
                }
                self.put_truck(i, truck);
                proof {
                    self.lemma_truck_put(&before, i as int);
                }
            } else {
                self.complete_truck_task(i);
            }
            i = i + 1;
        }
    }
}

/// Two walks in a row make one walk.
proof fn lemma_walk_concat(roads: Set<GridPosition>, a: GridPosition, p: Seq<GridPosition>, q: Seq<GridPosition>)
    requires
        road_walk(roads, a, p),
        road_walk(roads, walk_end(a, p), q),
    ensures
        road_walk(roads, a, p + q),
        walk_end(a, p + q) == walk_end(walk_end(a, p), q),
{
    let pq = p + q;
    assert forall|i: int| 0 <= i < pq.len() implies roads.contains(#[trigger] pq[i])
        && adjacent(if i == 0 { a } else { pq[i - 1] }, pq[i]) by {
        if i < p.len() {
            assert(pq[i] == p[i]);
            if i > 0 { assert(pq[i - 1] == p[i - 1]); }
        } else {
            let j = i - p.len();
            assert(pq[i] == q[j]);
            if j > 0 { assert(pq[i - 1] == q[j - 1]); } else if i > 0 { assert(pq[i - 1] == p[p.len() - 1]); }
        }
    }
    if q.len() > 0 {
        assert(pq.last() == q.last());
    } else {
        assert(pq =~= p);
    }
}

/// The cell `i` steps back along a walk from its end: the start is step
/// `p.len()`.
pub open spec fn walk_back(a: GridPosition, p: Seq<GridPosition>) -> Seq<GridPosition> {
    Seq::new(p.len(), |i: int| if i == p.len() - 1 { a } else { p[p.len() - 2 - i] })
}

/// A walk driven backwards leads from its end to its start.
proof fn lemma_walk_reverse(roads: Set<GridPosition>, a: GridPosition, p: Seq<GridPosition>)
    requires
        roads.contains(a),
        road_walk(roads, a, p),
    ensures
        road_walk(roads, walk_end(a, p), walk_back(a, p)),
        walk_end(walk_end(a, p), walk_back(a, p)) == a,
{
    let r = walk_back(a, p);
    let e = walk_end(a, p);
    assert forall|i: int| 0 <= i < r.len() implies roads.contains(#[trigger] r[i])
        && adjacent(if i == 0 { e } else { r[i - 1] }, r[i]) by {
        let j = p.len() - 1 - i;
        if j == 0 {
            assert(r[i] == a);
            assert(adjacent(a, p[0]));
        } else {
            assert(r[i] == p[j - 1]);
            assert(adjacent(p[j - 1], p[j]));
        }
        if i == 0 {
            assert(e == p[p.len() - 1]);
        } else {
            if j + 1 == 0 {
            } else {
                assert(r[i - 1] == p[j]);
            }
        }
    }
}

/// From any cell a walk reaches, the same objects can be reached.
proof fn lemma_reach_via(roads: Set<GridPosition>, a: GridPosition, p: Seq<GridPosition>, object: GridPosition)
    requires
        roads.contains(a),
        road_walk(roads, a, p),
    ensures
        reaches_object(roads, walk_end(a, p), object) <==> reaches_object(roads, a, object),
{
    reveal(reaches_object);
    let e = walk_end(a, p);
    if reaches_object(roads, e, object) {
        let q = choose|q: Seq<GridPosition>| road_walk(roads, e, q) && roads.contains(walk_end(e, q))
            && #[trigger] adjacent(object, walk_end(e, q));
        lemma_walk_concat(roads, a, p, q);
        assert(adjacent(object, walk_end(a, p + q)));
    }
    if reaches_object(roads, a, object) {
        let q = choose|q: Seq<GridPosition>| road_walk(roads, a, q) && roads.contains(walk_end(a, q))
            && #[trigger] adjacent(object, walk_end(a, q));
        lemma_walk_reverse(roads, a, p);
        lemma_walk_concat(roads, e, walk_back(a, p), q);
        assert(adjacent(object, walk_end(e, walk_back(a, p) + q)));
    }
}

/// Whether a truck at `pos` could be sent for ore at deposit `d` for building
/// `k`: the building wants the deposit's ore, and both can be reached.
pub open spec fn ore_job(m: CompactModel, pos: GridPosition, k: int, d: int) -> bool {
    &&& raw_job(m, k, d)
    &&& m.roads.contains(pos)
    &&& reaches_object(m.roads, pos, m.deposits[d].position)
    &&& reaches_object(m.roads, pos, m.buildings[k].position)
}

/// Whether a truck at `pos` has no job it could take: no building with bars
/// it can reach, and no ore run it can drive.
pub open spec fn no_job(m: CompactModel, pos: GridPosition) -> bool {
    &&& forall|k: int| 0 <= k < m.buildings.len() ==> !#[trigger] output_job(m, pos, k)
    &&& forall|k: int, d: int| 0 <= k < m.buildings.len() && 0 <= d < m.deposits.len() ==> !#[trigger] ore_job(m, pos, k, d)
}

proof fn lemma_no_job_frame(a: CompactModel, b: CompactModel, pos: GridPosition)
    requires
        no_job(a, pos),
        a.roads == b.roads,
        a.buildings == b.buildings,
        a.deposits == b.deposits,
    ensures
        no_job(b, pos),
{
    assert forall|k: int| 0 <= k < b.buildings.len() implies !#[trigger] output_job(b, pos, k) by {
        assert(!output_job(a, pos, k));
    }
    assert forall|k: int, d: int| 0 <= k < b.buildings.len() && 0 <= d < b.deposits.len() implies !#[trigger] ore_job(b, pos, k, d) by {
        assert(!ore_job(a, pos, k, d));
    }
}

/// Whether a truck waits for work: idle and empty.
pub open spec fn waiting(t: CompactTruck) -> bool {
    t.task == CompactTruckTask::Idle && t.cargo_quantity == 0
}

/// Whether a truck standing at `pos` could collect bars from building `k`.
pub open spec fn output_job(m: CompactModel, pos: GridPosition, k: int) -> bool {
    &&& m.buildings[k].output_stock > 0
    &&& m.roads.contains(pos)
    &&& reaches_object(m.roads, pos, m.buildings[k].position)
}

/// Whether a truck could be sent for ore at deposit `d` for building `k`.
pub open spec fn raw_job(m: CompactModel, k: int, d: int) -> bool {
    &&& 0 <= k < m.buildings.len()
    &&& 0 <= d < m.deposits.len()
    &&& m.buildings[k].recipe is Some
    &&& m.buildings[k].input_stock < 6
    &&& m.deposits[d].item == recipe_input(m.buildings[k].recipe->0)
    &&& m.deposits[d].stockpile > 0
}

/// The state with truck `i` sent on a task along a route.
pub open spec fn dispatched(before: CompactModel, after: CompactModel, i: int, task: CompactTruckTask) -> bool {
    &&& same_layout(after, before)
    &&& after.deposits == before.deposits
    &&& after.buildings == before.buildings
    &&& after.stock == before.stock
    &&& forall|j: int| 0 <= j < before.trucks.len() && j != i ==> #[trigger] after.trucks[j] == before.trucks[j]
    &&& after.trucks[i].position == before.trucks[i].position
    &&& after.trucks[i].cargo_item == before.trucks[i].cargo_item
    &&& after.trucks[i].cargo_quantity == before.trucks[i].cargo_quantity
    &&& after.trucks[i].task == task
}

impl CompactGame {
    /// Sends truck `i` on a task along a route from where it stands.
    fn dispatch(&mut self, i: usize, task: CompactTruckTask, route: Vec<GridPosition>)
        requires
            old(self).wf(),
            i < old(self).trucks@.len(),
            road_walk(old(self)@.roads, old(self).trucks@[i as int].position, route@),
        ensures
            final(self).wf(),
            final(self).roads == old(self).roads,
            dispatched(old(self)@, final(self)@, i as int, task),
            final(self)@.trucks[i as int].route@ == route@,
            goods_weight(final(self)@) == goods_weight(old(self)@),
    {
        let ghost before = *self;
        let mut truck = copy_truck(&self.trucks[i]);
        truck.task = task;
        truck.route = route;
        proof {
            before.lemma_wf_roads();
            lemma_sum_update(self.trucks@, i as int, truck, truck_weights());
        }
        self.put_truck(i, truck);
        proof {
            self.lemma_truck_put(&before, i as int);
        }
    }

    /// Sends truck `i` to collect bars from the first building, in order,
    /// that has bars and can be reached. Tells whether it did.
    fn assign_output_job(&mut self, i: usize) -> (r: bool)
        requires
            old(self).wf(),
            i < old(self).trucks@.len(),
        ensures
            final(self).wf(),
            final(self).roads == old(self).roads,
            goods_weight(final(self)@) == goods_weight(old(self)@),
            !r ==> final(self)@ == old(self)@,
            !r ==> forall|k: int| 0 <= k < old(self)@.buildings.len() ==> !#[trigger] output_job(old(self)@, old(self)@.trucks[i as int].position, k),
            r ==> exists|k: int| 0 <= k < old(self)@.buildings.len()
                && #[trigger] output_job(old(self)@, old(self)@.trucks[i as int].position, k)
                && (forall|j: int| 0 <= j < k ==> !#[trigger] output_job(old(self)@, old(self)@.trucks[i as int].position, j))
                && dispatched(old(self)@, final(self)@, i as int, CompactTruckTask::CollectOutput { building: old(self)@.buildings[k].id })
                && route_beside(old(self)@.roads, old(self)@.trucks[i as int].position, old(self)@.buildings[k].position,
                    final(self)@.trucks[i as int].route@),
    {
        let position = self.trucks[i].position;
        match self.find_output(position) {
            Some((k, route)) => {
                proof {
                    self.lemma_wf_roads();
                }
                self.dispatch(i, CompactTruckTask::CollectOutput { building: self.buildings[k].id }, route);
                true
            },
            None => false,
        }
    }

    /// The first building, in order, with bars that can be reached from
    /// `position`, and the route to it.
    fn find_output(&self, position: GridPosition) -> (r: Option<(usize, Vec<GridPosition>)>)
        requires
            self.wf(),
        ensures
            r is None ==> forall|k: int| 0 <= k < self@.buildings.len() ==> !#[trigger] output_job(self@, position, k),
            r matches Some((k, route)) ==> k < self@.buildings.len()
                && output_job(self@, position, k as int)
                && (forall|j: int| 0 <= j < k ==> !#[trigger] output_job(self@, position, j))
                && route_beside(self@.roads, position, self@.buildings[k as int].position, route@),
    {
        proof {
            self.lemma_wf_roads();
        }
        let mut k: usize = 0;
        while k < self.buildings.len()
            invariant
                self.wf(),
                k <= self.buildings@.len(),
                forall|j: int| 0 <= j < self@.buildings.len() ==> in_bounds((#[trigger] self@.buildings[j]).position),
                forall|j: int| 0 <= j < k ==> !#[trigger] output_job(self@, position, j),
            decreases self.buildings@.len() - k,
        {
            let b = self.buildings[k];
            if b.output_stock > 0 {
                match self.route_to_object(position, b.position) {
                    Some(route) => {
                        return Some((k, route));
                    },
                    None => {},
                }
            }
            k = k + 1;
        }
        None
    }

    /// Sends truck `i` for ore: the first building, in order, that is set to a
    /// recipe and holds fewer than six units of input, with the first deposit
    /// of its ore that has ore waiting and from which the building can be
    /// reached. Tells whether it did.
    fn assign_raw_job(&mut self, i: usize) -> (r: bool)
        requires
            old(self).wf(),
            i < old(self).trucks@.len(),
        ensures
            final(self).wf(),
            final(self).roads == old(self).roads,
            goods_weight(final(self)@) == goods_weight(old(self)@),
            !r ==> final(self)@ == old(self)@,
            !r ==> forall|k: int, d: int| 0 <= k < old(self)@.buildings.len() && 0 <= d < old(self)@.deposits.len()
                ==> !#[trigger] ore_job(old(self)@, old(self)@.trucks[i as int].position, k, d),
            r ==> exists|k: int, d: int| #[trigger] ore_job(old(self)@, old(self)@.trucks[i as int].position, k, d)
                && (forall|k2: int, d2: int| 0 <= k2 < k && 0 <= d2 < old(self)@.deposits.len()
                    ==> !#[trigger] ore_job(old(self)@, old(self)@.trucks[i as int].position, k2, d2))
                && (forall|d2: int| 0 <= d2 < d ==> !#[trigger] ore_job(old(self)@, old(self)@.trucks[i as int].position, k, d2))
                && dispatched(old(self)@, final(self)@, i as int, CompactTruckTask::CollectRaw {
                    deposit: d as u16,
                    building: old(self)@.buildings[k].id,
                })
                && route_beside(old(self)@.roads, old(self)@.trucks[i as int].position, old(self)@.deposits[d].position,
                    final(self)@.trucks[i as int].route@),
    {
        let position = self.trucks[i].position;
        let mut k: usize = 0;
        while k < self.buildings.len()
            invariant
                self.wf(),
                *self == *old(self),
                position == self@.trucks[i as int].position,
                i < self.trucks@.len(),
                k <= self.buildings@.len(),
                forall|k2: int, d2: int| 0 <= k2 < k && 0 <= d2 < self@.deposits.len()
                    ==> !#[trigger] ore_job(self@, position, k2, d2),
            decreases self.buildings@.len() - k,
        {
            match self.find_ore(position, k) {
                Some((d, route)) => {
                    proof {
                        self.lemma_wf_roads();
                        assert(self.trucks@[i as int].position == position);
                    }
                    self.dispatch(i, CompactTruckTask::CollectRaw { deposit: d as u16, building: self.buildings[k].id }, route);
                    return true;
                },
                None => {},
            }
            k = k + 1;
        }
        false
    }

    /// For building `k`, the first deposit of the ore its recipe takes that
    /// has ore waiting, can be reached from `position`, and from whose road
    /// the building can be reached; with the route to it.
    fn find_ore(&self, position: GridPosition, k: usize) -> (r: Option<(usize, Vec<GridPosition>)>)
        requires
            self.wf(),
            k < self@.buildings.len(),
        ensures
            r matches Some((d, route)) ==> d < self@.deposits.len() && ore_job(self@, position, k as int, d as int)
                && (forall|j: int| 0 <= j < d ==> !#[trigger] ore_job(self@, position, k as int, j))
                && route_beside(self@.roads, position, self@.deposits[d as int].position, route@),
            r is None ==> forall|j: int| 0 <= j < self@.deposits.len() ==> !#[trigger] ore_job(self@, position, k as int, j),
    {
        proof {
            self.lemma_wf_roads();
        }
        let b = self.buildings[k];
        let recipe = match b.recipe {
            Some(recipe) => recipe,
            None => { return None; },
        };
        if b.input_stock >= 6 {
            return None;
        }
        let ore = recipe.input();
        if !contains_cell(&self.roads, position) {
            return None;
        }
        let mut d: usize = 0;
        while d < self.deposits.len()
            invariant
                self.wf(),
                k < self@.buildings.len(),
                b == self@.buildings[k as int],
                b.recipe == Some(recipe),
                b.input_stock < 6,
                ore == recipe_input(recipe),
                in_bounds(b.position),
                d <= self.deposits@.len(),
                forall|j: int| 0 <= j < self@.deposits.len() ==> in_bounds((#[trigger] self@.deposits[j]).position),
                forall|j: int| 0 <= j < d ==> !#[trigger] ore_job(self@, position, k as int, j),
            decreases self.deposits@.len() - d,
        {
            let deposit = self.deposits[d];
            if deposit.item == ore && deposit.stockpile > 0 {
                match self.route_to_object(position, deposit.position) {
                    Some(route) => {
                        let n = route.len();
                        let end = if n == 0 { position } else { route[n - 1] };
                        proof {
                            assert(end == walk_end(position, route@));
                            lemma_reach_via(self@.roads, position, route@, b.position);
                        }
                        match self.route_to_object(end, b.position) {
                            Some(_) => {
                                return Some((d, route));
                            },
                            None => {},
                        }
                    },
                    None => {},
                }
            }
            d = d + 1;
        }
        None
    }

    /// Sends every idle, empty truck for bars if some building has bars it
    /// can reach, and otherwise for ore.
    fn assign_idle_trucks(&mut self)
        requires
            old(self).wf(),
        ensures
            forall|j: int| 0 <= j < final(self)@.trucks.len() && waiting(#[trigger] final(self)@.trucks[j])
                ==> no_job(final(self)@, final(self)@.trucks[j].position),
            extends(old(self)@.events, final(self)@.events),
            same_places(final(self)@, old(self)@),
            final(self)@.market == old(self)@.market,
            final(self)@.building_limit == old(self)@.building_limit,
            final(self).wf(),
            final(self).roads == old(self).roads,
            same_layout(final(self)@, old(self)@),
            final(self)@.deposits == old(self)@.deposits,
            final(self)@.buildings == old(self)@.buildings,
            final(self)@.stock == old(self)@.stock,
            goods_weight(final(self)@) == goods_weight(old(self)@),
            forall|j: int| 0 <= j < old(self)@.trucks.len() && (old(self)@.trucks[j].task != CompactTruckTask::Idle || old(self)@.trucks[j].cargo_quantity > 0)
                ==> #[trigger] final(self)@.trucks[j] == old(self)@.trucks[j],
            forall|j: int| 0 <= j < old(self)@.trucks.len() ==> (#[trigger] final(self)@.trucks[j]).position == old(self)@.trucks[j].position
                && final(self)@.trucks[j].cargo_item == old(self)@.trucks[j].cargo_item
                && final(self)@.trucks[j].cargo_quantity == old(self)@.trucks[j].cargo_quantity,
    {
        let n = self.trucks.len();
        let mut i: usize = 0;
        while i < n
            invariant
                self.wf(),
                n == self.trucks@.len(),
                n == old(self).trucks@.len(),
                i <= n,
                self.roads == old(self).roads,
                same_layout(self@, old(self)@),
                self@.deposits == old(self)@.deposits,
                self@.buildings == old(self)@.buildings,
                self@.stock == old(self)@.stock,
                goods_weight(self@) == goods_weight(old(self)@),
                forall|j: int| 0 <= j < i && (old(self)@.trucks[j].task != CompactTruckTask::Idle || old(self)@.trucks[j].cargo_quantity > 0)
                    ==> #[trigger] self@.trucks[j] == old(self)@.trucks[j],
                forall|j: int| 0 <= j < n ==> (#[trigger] self@.trucks[j]).position == old(self)@.trucks[j].position
                    && self@.trucks[j].cargo_item == old(self)@.trucks[j].cargo_item
                    && self@.trucks[j].cargo_quantity == old(self)@.trucks[j].cargo_quantity,
                forall|j: int| i <= j < n ==> #[trigger] self@.trucks[j] == old(self)@.trucks[j],
                forall|j: int| 0 <= j < i && waiting(#[trigger] self@.trucks[j]) ==> no_job(self@, self@.trucks[j].position),
            decreases n - i,
        {
            let ghost before = self@;
            if self.trucks[i].task == CompactTruckTask::Idle && self.trucks[i].cargo_quantity == 0 {
                if !self.assign_output_job(i) {
                    self.assign_raw_job(i);
                }
            }
            proof {
                assert forall|j: int| 0 <= j < i + 1 && waiting(#[trigger] self@.trucks[j]) implies no_job(self@, self@.trucks[j].position) by {
                    if j < i {
                        assert(self@.trucks[j] == before.trucks[j]);
                        assert(no_job(before, before.trucks[j].position));
                        assert forall|k: int| 0 <= k < self@.buildings.len() implies !#[trigger] output_job(self@, self@.trucks[j].position, k) by {
                            assert(!output_job(before, before.trucks[j].position, k));
                        }
                        assert forall|k: int, d: int| 0 <= k < self@.buildings.len() && 0 <= d < self@.deposits.len()
                            implies !#[trigger] ore_job(self@, self@.trucks[j].position, k, d) by {
                            assert(!ore_job(before, before.trucks[j].position, k, d));
                        }
                    } else {
                        assert forall|k: int| 0 <= k < self@.buildings.len() implies !#[trigger] output_job(self@, self@.trucks[j].position, k) by {
                            assert(!output_job(before, before.trucks[j].position, k));
                        }
                        assert forall|k: int, d: int| 0 <= k < self@.buildings.len() && 0 <= d < self@.deposits.len()
                            implies !#[trigger] ore_job(self@, self@.trucks[j].position, k, d) by {
                            assert(!ore_job(before, before.trucks[j].position, k, d));
                        }
                    }
                }
            }
            i = i + 1;
        }
    }
}

/// The warehouse entries, in item order, as (item, amount) pairs.
pub open spec fn stock_entries(stock: Seq<Option<u32>>) -> Seq<(ItemId, u32)>
    decreases stock.len(),
{
    if stock.len() == 0 {
        Seq::empty()
    } else {
        let rest = stock_entries(stock.drop_last());
        match stock.last() {
            Some(n) => rest.push((crate::content::item_at((stock.len() - 1) as nat), n)),
            None => rest,
        }
    }
}

/// The allowance the player sees: buildings used, the limit, and the sales
/// at which the next building is allowed, while one is left to unlock.
pub open spec fn allowance_of(m: CompactModel) -> CompactAllowanceSnapshot {
    CompactAllowanceSnapshot {
        used: m.buildings.len() as u16,
        limit: m.building_limit,
        next_unlock_at_sales: unlock_threshold(if m.building_limit >= 2 { m.building_limit - 2 } else { 0 }),
    }
}

/// Whether a snapshot shows a state, its log aside.
pub open spec fn shows(r: CompactSnapshot, m: CompactModel) -> bool {
    &&& r.tick == m.tick
    &&& r.name@ == "Compact Freight Yard"@
    &&& r.width == COMPACT_WORLD_WIDTH
    &&& r.height == COMPACT_WORLD_HEIGHT
    &&& r.warehouse_position == warehouse_position()
    &&& r.roads@.to_set() == m.roads
    &&& sorted_cells(r.roads@)
    &&& r.deposits@.len() == m.deposits.len()
    &&& forall|i: int| 0 <= i < m.deposits.len() ==> #[trigger] r.deposits@[i] == (CompactDepositSnapshot {
            position: m.deposits[i].position,
            item: m.deposits[i].item,
            remaining: m.deposits[i].remaining,
            stockpile: m.deposits[i].stockpile,
        })
    &&& r.buildings@.len() == m.buildings.len()
    &&& forall|i: int| 0 <= i < m.buildings.len() ==> #[trigger] r.buildings@[i] == (CompactBuildingSnapshot {
            id: m.buildings[i].id,
            position: m.buildings[i].position,
            recipe: m.buildings[i].recipe,
            input_stock: m.buildings[i].input_stock,
            output_stock: m.buildings[i].output_stock,
            craft_progress: m.buildings[i].craft_progress,
            road_connected: has_frontage(m.roads, m.buildings[i].position),
        })
    &&& r.trucks@.len() == m.trucks.len()
    &&& forall|i: int| 0 <= i < m.trucks.len() ==> {
            let t = #[trigger] r.trucks@[i];
            &&& t.id == m.trucks[i].id
            &&& t.position == m.trucks[i].position
            &&& t.cargo_item == m.trucks[i].cargo_item
            &&& t.cargo_quantity == m.trucks[i].cargo_quantity
            &&& t.task == m.trucks[i].task
            &&& t.route@ == m.trucks[i].route@
        }
    &&& r.warehouse_stock@ == stock_entries(m.stock)
    &&& r.market == m.market
    &&& r.allowance == allowance_of(m)
}

proof fn lemma_stock_entries_step(stock: Seq<Option<u32>>, k: int)
    requires
        0 <= k < stock.len(),
    ensures
        stock_entries(stock.take(k + 1)) == (match stock[k] {
            Some(n) => stock_entries(stock.take(k)).push((crate::content::item_at(k as nat), n)),
            None => stock_entries(stock.take(k)),
        }),
{
    assert(stock.take(k + 1).drop_last() =~= stock.take(k));
}

impl CompactGame {
    /// What the player sees now, with the log of everything since the last
    /// look, which this clears.
    pub fn snapshot(&mut self) -> (r: CompactSnapshot)
        requires
            old(self).wf(),
        ensures
            final(self).wf(),
            shows(r, old(self)@),
            texts(r.events@) == old(self)@.events,
            final(self)@ == (CompactModel { events: Seq::empty(), ..old(self)@ }),
    {
        proof {
            self.lemma_wf_roads();
        }
        let mut events: Vec<String> = Vec::new();
        std::mem::swap(&mut events, &mut self.events);
        let roads = copy_cells(&self.roads);
        let mut deposits: Vec<CompactDepositSnapshot> = Vec::new();
        let mut k: usize = 0;
        while k < self.deposits.len()
            invariant
                k <= self.deposits@.len(),
                deposits@.len() == k,
                forall|i: int| 0 <= i < k ==> #[trigger] deposits@[i] == (CompactDepositSnapshot {
                    position: self.deposits@[i].position,
                    item: self.deposits@[i].item,
                    remaining: self.deposits@[i].remaining,
                    stockpile: self.deposits@[i].stockpile,
                }),
            decreases self.deposits@.len() - k,
        {
            let d = self.deposits[k];
            deposits.push(CompactDepositSnapshot { position: d.position, item: d.item, remaining: d.remaining, stockpile: d.stockpile });
            k = k + 1;
        }
        let mut buildings: Vec<CompactBuildingSnapshot> = Vec::new();
        let mut k: usize = 0;
        while k < self.buildings.len()
            invariant
                k <= self.buildings@.len(),
                buildings@.len() == k,
                forall|i: int| 0 <= i < self.buildings@.len() ==> in_bounds((#[trigger] self.buildings@[i]).position),
                forall|i: int| 0 <= i < k ==> #[trigger] buildings@[i] == (CompactBuildingSnapshot {
                    id: self.buildings@[i].id,
                    position: self.buildings@[i].position,
                    recipe: self.buildings@[i].recipe,
                    input_stock: self.buildings@[i].input_stock,
                    output_stock: self.buildings@[i].output_stock,
                    craft_progress: self.buildings@[i].craft_progress,
                    road_connected: has_frontage(self@.roads, self.buildings@[i].position),
                }),
            decreases self.buildings@.len() - k,
        {
            let b = self.buildings[k];
            let connected = self.has_road_frontage(b.position);
            buildings.push(CompactBuildingSnapshot {
                id: b.id,
                position: b.position,
                recipe: b.recipe,
                input_stock: b.input_stock,
                output_stock: b.output_stock,
                craft_progress: b.craft_progress,
                road_connected: connected,
            });
            k = k + 1;
        }
        let mut trucks: Vec<CompactTruckSnapshot> = Vec::new();
        let mut k: usize = 0;
        while k < self.trucks.len()
            invariant
                k <= self.trucks@.len(),
                trucks@.len() == k,
                forall|i: int| 0 <= i < k ==> {
                    let t = #[trigger] trucks@[i];
                    &&& t.id == self.trucks@[i].id
                    &&& t.position == self.trucks@[i].position
                    &&& t.cargo_item == self.trucks@[i].cargo_item
                    &&& t.cargo_quantity == self.trucks@[i].cargo_quantity
                    &&& t.task == self.trucks@[i].task
                    &&& t.route@ == self.trucks@[i].route@
                },
            decreases self.trucks@.len() - k,
        {
            let t = &self.trucks[k];
            trucks.push(CompactTruckSnapshot {
                id: t.id,
                position: t.position,
                cargo_item: t.cargo_item,
                cargo_quantity: t.cargo_quantity,
                task: t.task,
                route: copy_cells(&t.route),
            });
            k = k + 1;
        }
        let mut stock: Vec<(ItemId, u32)> = Vec::new();
        let mut k: usize = 0;
        while k < ITEM_COUNT
            invariant
                k <= ITEM_COUNT,
                self.warehouse_stock@.len() == ITEM_COUNT,
                stock@ == stock_entries(self.warehouse_stock@.take(k as int)),
            decreases ITEM_COUNT - k,
        {
            proof {
                lemma_stock_entries_step(self.warehouse_stock@, k as int);
            }
            match self.warehouse_stock[k] {
                Some(n) => {
                    stock.push((ItemId::from_index(k), n));
                },
                None => {},
            }
            k = k + 1;
        }
        proof {
            assert(self.warehouse_stock@.take(ITEM_COUNT as int) =~= self.warehouse_stock@);
        }
        let used = self.buildings.len() as u16;
        let next = building_unlock_sales(self.building_limit.saturating_sub(2) as usize);
        let r = CompactSnapshot {
            tick: self.tick,
            name: compact_scenario_name(),
            width: COMPACT_WORLD_WIDTH,
            height: COMPACT_WORLD_HEIGHT,
            warehouse_position: CompactGame::warehouse_position(),
            roads,
            deposits,
            buildings,
            trucks,
            warehouse_stock: stock,
            market: self.market,
            allowance: CompactAllowanceSnapshot { used, limit: self.building_limit, next_unlock_at_sales: next },
            events,
        };
        proof {
            assert(texts(self.events@) =~= Seq::<Seq<char>>::empty());
        }
        r
    }
}

impl CompactGame {
    /// Advances the game one tick: a new market cycle every twenty ticks,
    /// mining every other tick, then trucks, production, sales, the building
    /// allowance and new truck jobs, in that order. Returns what the player
    /// sees after the tick, with the log since the last look.
    pub fn step(&mut self) -> (r: CompactSnapshot)
        requires
            old(self).wf(),
            old(self)@.tick < u64::MAX,
            (old(self)@.tick + 1) % (MARKET_CYCLE_TICKS as int) == 0 ==> old(self)@.market.cycle + 5 <= u32::MAX,
        ensures
            forall|j: int| 0 <= j < final(self)@.trucks.len() && waiting(#[trigger] final(self)@.trucks[j])
                ==> no_job(final(self)@, final(self)@.trucks[j].position),
            final(self)@.deposits.len() == old(self)@.deposits.len(),
            forall|i: int| 0 <= i < old(self)@.deposits.len() ==> (#[trigger] final(self)@.deposits[i]).remaining == (
                if (old(self)@.tick + 1) % 2 == 0 { mined(old(self)@.deposits[i]).remaining } else { old(self)@.deposits[i].remaining }),
            forall|i: int| 0 <= i < old(self)@.deposits.len() ==> (#[trigger] final(self)@.deposits[i]).stockpile <= (
                if (old(self)@.tick + 1) % 2 == 0 { mined(old(self)@.deposits[i]).stockpile } else { old(self)@.deposits[i].stockpile }),
            final(self)@.market.revenue == old(self)@.market.revenue + 10 * (final(self)@.market.sold_total - old(self)@.market.sold_total),
            (old(self)@.tick + 1) % (MARKET_CYCLE_TICKS as int) == 0 ==> final(self)@.market.demand_per_cycle == 4 + final(self)@.market.cycle,
            (old(self)@.tick + 1) % (MARKET_CYCLE_TICKS as int) != 0 ==> final(self)@.market.demand_per_cycle == old(self)@.market.demand_per_cycle,
            final(self)@.market.cycle == old(self)@.market.cycle + (if (old(self)@.tick + 1) % (MARKET_CYCLE_TICKS as int) == 0 { 1int } else { 0int }),
            final(self).wf(),
            final(self)@.tick == old(self)@.tick + 1,
            same_places(final(self)@, old(self)@),
            goods_weight(final(self)@) <= goods_weight(old(self)@),
            final(self)@.market.sold_total >= old(self)@.market.sold_total,
            final(self)@.building_limit == (if unlocked(final(self)@.market.sold_total) > old(self)@.building_limit {
                unlocked(final(self)@.market.sold_total)
            } else {
                old(self)@.building_limit
            }),
            final(self)@.events.len() == 0,
            shows(r, final(self)@),
            extends(old(self)@.events, texts(r.events@)),
            forall|j: int| 0 <= j < r.trucks@.len() ==> r.roads@.contains((#[trigger] r.trucks@[j]).position),
    {
        self.tick = self.tick + 1;
        let ghost m0 = self@;
        self.advance_market_cycle();
        let ghost m1 = self@;
        self.advance_mining();
        let ghost m2 = self@;
        self.advance_trucks();
        let ghost m3 = self@;
        self.advance_production();
        let ghost m4 = self@;
        self.sell_to_market();
        let ghost m5 = self@;
        self.advance_allowance();
        let ghost m6 = self@;
        self.assign_idle_trucks();
        let ghost m7 = self@;
        proof {
            assert(m0.events == old(self)@.events);
            assert(same_places(m0, old(self)@));
            lemma_extends_trans(m0.events, m1.events, m2.events);
            lemma_extends_trans(m0.events, m2.events, m3.events);
            lemma_extends_trans(m0.events, m3.events, m4.events);
            lemma_extends_trans(m0.events, m4.events, m5.events);
            lemma_extends_trans(m0.events, m5.events, m6.events);
            lemma_extends_trans(m0.events, m6.events, m7.events);
            lemma_same_places_trans(m0, m1, m2);
            lemma_same_places_trans(m0, m2, m3);
            lemma_same_places_trans(m0, m3, m4);
            lemma_same_places_trans(m0, m4, m5);
            lemma_same_places_trans(m0, m5, m6);
            lemma_same_places_trans(m0, m6, m7);
            lemma_same_places_trans(old(self)@, m0, m7);
            self.lemma_wf_roads();
            assert forall|i: int| 0 <= i < old(self)@.deposits.len() implies (#[trigger] m7.deposits[i]).stockpile <= (
                if (old(self)@.tick + 1) % 2 == 0 { mined(old(self)@.deposits[i]).stockpile } else { old(self)@.deposits[i].stockpile }) by {
                assert(m1.deposits[i] == old(self)@.deposits[i]);
                assert(m3.deposits[i].stockpile <= m2.deposits[i].stockpile);
                assert(m4.deposits[i] == m3.deposits[i]);
                assert(m5.deposits[i] == m4.deposits[i]);
                assert(m6.deposits[i] == m5.deposits[i]);
                assert(m7.deposits[i] == m6.deposits[i]);
            }
        }
        let r = self.snapshot();
        proof {
            assert forall|j: int| 0 <= j < self@.trucks.len() && waiting(#[trigger] self@.trucks[j])
                implies no_job(self@, self@.trucks[j].position) by {
                assert(self@.trucks[j] == m7.trucks[j]);
                lemma_no_job_frame(m7, self@, m7.trucks[j].position);
            }
            assert forall|j: int| 0 <= j < r.trucks@.len() implies r.roads@.contains((#[trigger] r.trucks@[j]).position) by {
                assert(m7.roads.contains(m7.trucks[j].position));
                assert(r.roads@.to_set().contains(r.trucks@[j].position));
            }
        }
        r
    }
}

impl Default for CompactGame {
    /// A new game.
    fn default() -> (r: Self)
        ensures
            r.wf(),
            initial(r@),
    {
        CompactGame::new()
    }
}

/// The warehouse stock a list of entries gives: each entry sets the amount of
/// its item, later entries over earlier ones.
pub open spec fn stock_from_entries(entries: Seq<(ItemId, u32)>) -> Seq<Option<u32>>
    decreases entries.len(),
{
    if entries.len() == 0 {
        Seq::new(ITEM_COUNT as nat, |k: int| None::<u32>)
    } else {
        let e = entries.last();
        stock_from_entries(entries.drop_last()).update(crate::content::item_rank(e.0) as int, Some(e.1))
    }
}

/// The state a save's parts describe.
pub open spec fn parts_model(p: CompactGameParts) -> CompactModel {
    CompactModel {
        tick: p.tick,
        roads: p.roads@.to_set(),
        deposits: p.deposits@,
        buildings: p.buildings@,
        trucks: p.trucks@,
        stock: stock_from_entries(p.warehouse_stock@),
        market: p.market,
        building_limit: p.building_limit,
        events: texts(p.events@),
    }
}

/// Whether a save's parts describe a state a game can be in: roads in
/// position order inside the world, deposits and buildings inside it, no more
/// buildings than allowed, trucks on roads with routes over roads, and goods
/// below the limit.
pub open spec fn admissible(p: CompactGameParts) -> bool {
    &&& sorted_cells(p.roads@)
    &&& forall|i: int| 0 <= i < p.roads@.len() ==> in_bounds(#[trigger] p.roads@[i])
    &&& forall|i: int| 0 <= i < p.deposits@.len() ==> in_bounds((#[trigger] p.deposits@[i]).position)
    &&& forall|i: int| 0 <= i < p.buildings@.len() ==> in_bounds((#[trigger] p.buildings@[i]).position)
    &&& p.deposits@.len() <= 65536
    &&& p.buildings@.len() <= p.building_limit
    &&& trucks_on_roads(p.roads@.to_set(), p.trucks@)
    &&& goods_weight(parts_model(p)) <= goods_limit()
}

fn adjacent_cells(a: GridPosition, b: GridPosition) -> (r: bool)
    ensures
        r == adjacent(a, b),
{
    let (ax, ay, bx, by) = (a.x as i64, a.y as i64, b.x as i64, b.y as i64);
    (ax == bx && (ay == by + 1 || by == ay + 1)) || (ay == by && (ax == bx + 1 || bx == ax + 1))
}

/// Whether a route drives over the roads one cell at a time from `start`.
fn walk_on(roads: &Vec<GridPosition>, start: GridPosition, route: &Vec<GridPosition>) -> (r: bool)
    ensures
        r == road_walk(roads@.to_set(), start, route@),
{
    let mut j: usize = 0;
    while j < route.len()
        invariant
            j <= route@.len(),
            forall|i: int| 0 <= i < j ==> roads@.to_set().contains(#[trigger] route@[i])
                && adjacent(if i == 0 { start } else { route@[i - 1] }, route@[i]),
        decreases route@.len() - j,
    {
        let previous = if j == 0 { start } else { route[j - 1] };
        if !contains_cell(roads, route[j]) || !adjacent_cells(previous, route[j]) {
            proof {
                assert(!(roads@.to_set().contains(route@[j as int]) && adjacent(if j == 0 { start } else { route@[j - 1] }, route@[j as int])));
            }
            return false;
        }
        j = j + 1;
    }
    true
}

fn malformed(detail: &str) -> (r: CompactSaveError)
    ensures
        r matches CompactSaveError::Malformed(d) && d@ == detail@,
{
    CompactSaveError::Malformed(text_of(detail))
}

fn sum_deposits(items: &Vec<CompactDeposit>) -> (r: Option<u128>)
    ensures
        r matches Some(w) ==> w == sum_of(items@, deposit_weights()) && w <= goods_limit(),
        r is None ==> sum_of(items@, deposit_weights()) > goods_limit(),
{
    let mut acc: u128 = 0;
    let mut k: usize = 0;
    while k < items.len()
        invariant
            k <= items@.len(),
            acc == sum_of(items@.take(k as int), deposit_weights()),
            acc <= goods_limit(),
        decreases items@.len() - k,
    {
        proof { crate::tally::lemma_prefix_step(items@, k as int, |d: CompactDeposit| true, deposit_weights()); }
        let d = items[k];
        acc = acc + 110 * (d.remaining as u128 + d.stockpile as u128);
        k = k + 1;
        if acc > 3 * (u32::MAX as u128) {
            proof { lemma_sum_prefix_le(items@, k as int, deposit_weights()); }
            return None;
        }
    }
    proof { assert(items@.take(items@.len() as int) =~= items@); }
    Some(acc)
}

fn sum_buildings(items: &Vec<CompactBuilding>) -> (r: Option<u128>)
    ensures
        r matches Some(w) ==> w == sum_of(items@, building_weights()) && w <= goods_limit(),
        r is None ==> sum_of(items@, building_weights()) > goods_limit(),
{
    let mut acc: u128 = 0;
    let mut k: usize = 0;
    while k < items.len()
        invariant
            k <= items@.len(),
            acc == sum_of(items@.take(k as int), building_weights()),
            acc <= goods_limit(),
        decreases items@.len() - k,
    {
        proof { crate::tally::lemma_prefix_step(items@, k as int, |b: CompactBuilding| true, building_weights()); }
        let b = items[k];
        let batch: u128 = if b.craft_progress > 0 { 330 } else { 0 };
        acc = acc + 110 * (b.input_stock as u128) + 33 * (b.output_stock as u128) + batch;
        k = k + 1;
        if acc > 3 * (u32::MAX as u128) {
            proof { lemma_sum_prefix_le(items@, k as int, building_weights()); }
            return None;
        }
    }
    proof { assert(items@.take(items@.len() as int) =~= items@); }
    Some(acc)
}

fn cargo_weight(item: Option<ItemId>) -> (r: u128)
    ensures
        r == item_weight(item),
{
    match item {
        Some(ItemId::IronBars) => 33,
        Some(ItemId::CopperBars) => 33,
        _ => 110,
    }
}

fn sum_trucks(items: &Vec<CompactTruck>) -> (r: Option<u128>)
    ensures
        r matches Some(w) ==> w == sum_of(items@, truck_weights()) && w <= goods_limit(),
        r is None ==> sum_of(items@, truck_weights()) > goods_limit(),
{
    let mut acc: u128 = 0;
    let mut k: usize = 0;
    while k < items.len()
        invariant
            k <= items@.len(),
            acc == sum_of(items@.take(k as int), truck_weights()),
            acc <= goods_limit(),
        decreases items@.len() - k,
    {
        proof { crate::tally::lemma_prefix_step(items@, k as int, |t: CompactTruck| true, truck_weights()); }
        let w = cargo_weight(items[k].cargo_item);
        let q = items[k].cargo_quantity as u128;
        assert(q * w <= 110 * 4294967295) by (nonlinear_arith)
            requires
                q <= 4294967295,
                w <= 110;
        acc = acc + q * w;
        k = k + 1;
        if acc > 3 * (u32::MAX as u128) {
            proof { lemma_sum_prefix_le(items@, k as int, truck_weights()); }
            return None;
        }
    }
    proof { assert(items@.take(items@.len() as int) =~= items@); }
    Some(acc)
}

proof fn lemma_sum_prefix_le<A>(s: Seq<A>, k: int, f: spec_fn(A) -> nat)
    requires
        0 <= k <= s.len(),
    ensures
        sum_of(s.take(k), f) <= sum_of(s, f),
    decreases s.len() - k,
{
    if k < s.len() {
        crate::tally::lemma_prefix_step(s, k, |a: A| true, f);
        lemma_sum_prefix_le(s, k + 1, f);
    } else {
        assert(s.take(k) =~= s);
    }
}

proof fn lemma_stock_prefix(stock: Seq<Option<u32>>, k: int)
    requires
        0 <= k < stock.len(),
    ensures
        stock_weight(stock.take(k + 1)) == stock_weight(stock.take(k))
            + entry_amount(stock[k]) * item_weight(Some(crate::content::item_at(k as nat))),
{
    assert(stock.take(k + 1).drop_last() =~= stock.take(k));
}

impl CompactGame {
    /// The whole state of the game, as a save holds it.
    pub fn to_parts(&self) -> (r: CompactGameParts)
        requires
            self.wf(),
        ensures
            saved_as(self@, r),
    {
        let mut deposits: Vec<CompactDeposit> = Vec::new();
        let mut k: usize = 0;
        while k < self.deposits.len()
            invariant
                k <= self.deposits@.len(),
                deposits@ == self.deposits@.take(k as int),
            decreases self.deposits@.len() - k,
        {
            deposits.push(self.deposits[k]);
            k = k + 1;
            proof { assert(deposits@ =~= self.deposits@.take(k as int)); }
        }
        let mut buildings: Vec<CompactBuilding> = Vec::new();
        let mut k: usize = 0;
        while k < self.buildings.len()
            invariant
                k <= self.buildings@.len(),
                buildings@ == self.buildings@.take(k as int),
            decreases self.buildings@.len() - k,
        {
            buildings.push(self.buildings[k]);
            k = k + 1;
            proof { assert(buildings@ =~= self.buildings@.take(k as int)); }
        }
        let mut trucks: Vec<CompactTruck> = Vec::new();
        let mut k: usize = 0;
        while k < self.trucks.len()
            invariant
                k <= self.trucks@.len(),
                trucks@.len() == k,
                forall|i: int| 0 <= i < k ==> same_truck(#[trigger] trucks@[i], self.trucks@[i]),
            decreases self.trucks@.len() - k,
        {
            trucks.push(copy_truck(&self.trucks[k]));
            k = k + 1;
        }
        let mut stock: Vec<(ItemId, u32)> = Vec::new();
        let mut k: usize = 0;
        while k < ITEM_COUNT
            invariant
                k <= ITEM_COUNT,
                self.warehouse_stock@.len() == ITEM_COUNT,
                stock@ == stock_entries(self.warehouse_stock@.take(k as int)),
            decreases ITEM_COUNT - k,
        {
            proof { lemma_stock_entries_step(self.warehouse_stock@, k as int); }
            match self.warehouse_stock[k] {
                Some(n) => { stock.push((ItemId::from_index(k), n)); },
                None => {},
            }
            k = k + 1;
        }
        let mut events: Vec<String> = Vec::new();
        let mut k: usize = 0;
        while k < self.events.len()
            invariant
                k <= self.events@.len(),
                texts(events@) == texts(self.events@.take(k as int)),
            decreases self.events@.len() - k,
        {
            let line = self.events[k].clone();
            let ghost prev = events@;
            events.push(line);
            proof {
                assert(texts(events@) =~= texts(prev).push(line@));
                assert(texts(self.events@.take(k as int + 1)) =~= texts(self.events@.take(k as int)).push(self.events@[k as int]@));
            }
            k = k + 1;
        }
        proof {
            assert(self.deposits@.take(self.deposits@.len() as int) =~= self.deposits@);
            assert(self.buildings@.take(self.buildings@.len() as int) =~= self.buildings@);
            assert(self.warehouse_stock@.take(ITEM_COUNT as int) =~= self.warehouse_stock@);
            assert(self.events@.take(self.events@.len() as int) =~= self.events@);
        }
        CompactGameParts {
            tick: self.tick,
            roads: copy_cells(&self.roads),
            deposits,
            buildings,
            trucks,
            warehouse_stock: stock,
            market: self.market,
            building_limit: self.building_limit,
            events,
        }
    }

    /// A game from a save's parts, or why the parts describe no state a game
    /// can be in.
    pub fn from_parts(parts: CompactGameParts) -> (r: Result<CompactGame, CompactSaveError>)
        ensures
            r is Ok <==> admissible(parts),
            r matches Ok(game) ==> game.wf() && game@ == parts_model(parts),
            r is Err ==> r->Err_0 is Malformed,
    {
        let mut k: usize = 0;
        while k < parts.roads.len()
            invariant
                k <= parts.roads@.len(),
                sorted_cells(parts.roads@.take(k as int)),
                forall|i: int| 0 <= i < k ==> in_bounds(#[trigger] parts.roads@[i]),
            decreases parts.roads@.len() - k,
        {
            let p = parts.roads[k];
            if p.x < 0 || p.y < 0 || p.x >= COMPACT_WORLD_WIDTH || p.y >= COMPACT_WORLD_HEIGHT {
                return Err(malformed("a road lies outside the world"));
            }
            if k > 0 && !position_lt(parts.roads[k - 1], p) {
                proof {
                    assert(!position_less(parts.roads@[k - 1], parts.roads@[k as int]));
                }
                return Err(malformed("roads are not in order"));
            }
            proof {
                let t = parts.roads@.take(k as int + 1);
                assert forall|i: int, j: int| 0 <= i < j < t.len() implies position_less(#[trigger] t[i], #[trigger] t[j]) by {
                    if j == k && i < k - 1 {
                        assert(position_less(parts.roads@.take(k as int)[i], parts.roads@.take(k as int)[k - 1]));
                    }
                }
            }
            k = k + 1;
        }
        proof { assert(parts.roads@.take(parts.roads@.len() as int) =~= parts.roads@); }
        let mut k: usize = 0;
        while k < parts.deposits.len()
            invariant
                k <= parts.deposits@.len(),
                forall|i: int| 0 <= i < k ==> in_bounds((#[trigger] parts.deposits@[i]).position),
            decreases parts.deposits@.len() - k,
        {
            let p = parts.deposits[k].position;
            if p.x < 0 || p.y < 0 || p.x >= COMPACT_WORLD_WIDTH || p.y >= COMPACT_WORLD_HEIGHT {
                return Err(malformed("a deposit lies outside the world"));
            }
            k = k + 1;
        }
        let mut k: usize = 0;
        while k < parts.buildings.len()
            invariant
                k <= parts.buildings@.len(),
                forall|i: int| 0 <= i < k ==> in_bounds((#[trigger] parts.buildings@[i]).position),
            decreases parts.buildings@.len() - k,
        {
            let p = parts.buildings[k].position;
            if p.x < 0 || p.y < 0 || p.x >= COMPACT_WORLD_WIDTH || p.y >= COMPACT_WORLD_HEIGHT {
                return Err(malformed("a building lies outside the world"));
            }
            k = k + 1;
        }
        if parts.deposits.len() > 65536 {
            return Err(malformed("too many deposits"));
        }
        if parts.buildings.len() > parts.building_limit as usize {
            return Err(malformed("more buildings than allowed"));
        }
        let ghost road_set = parts.roads@.to_set();
        let mut k: usize = 0;
        while k < parts.trucks.len()
            invariant
                k <= parts.trucks@.len(),
                road_set == parts.roads@.to_set(),
                forall|i: int| 0 <= i < k ==> {
                    let t = #[trigger] parts.trucks@[i];
                    &&& road_set.contains(t.position)
                    &&& road_walk(road_set, t.position, t.route@)
                },
            decreases parts.trucks@.len() - k,
        {
            if !contains_cell(&parts.roads, parts.trucks[k].position) {
                proof { reveal(trucks_on_roads); assert(!road_set.contains(parts.trucks@[k as int].position)); }
                return Err(malformed("a truck stands off the roads"));
            }
            if !walk_on(&parts.roads, parts.trucks[k].position, &parts.trucks[k].route) {
                proof { reveal(trucks_on_roads); }
                return Err(malformed("a truck route leaves the roads"));
            }
            k = k + 1;
        }
        proof { reveal(trucks_on_roads); }
        let mut stock: Vec<Option<u32>> = Vec::new();
        while stock.len() < ITEM_COUNT
            invariant
                stock@.len() <= ITEM_COUNT,
                forall|j: int| 0 <= j < stock@.len() ==> stock@[j] is None,
            decreases ITEM_COUNT - stock@.len(),
        {
            stock.push(None);
        }
        proof { assert(stock@ =~= stock_from_entries(parts.warehouse_stock@.take(0))); }
        let mut k: usize = 0;
        while k < parts.warehouse_stock.len()
            invariant
                k <= parts.warehouse_stock@.len(),
                stock@ == stock_from_entries(parts.warehouse_stock@.take(k as int)),
                stock@.len() == ITEM_COUNT,
            decreases parts.warehouse_stock@.len() - k,
        {
            let (item, amount) = parts.warehouse_stock[k];
            proof {
                crate::content::lemma_item_rank_bijective(item);
                assert(parts.warehouse_stock@.take(k as int + 1).drop_last() =~= parts.warehouse_stock@.take(k as int));
            }
            stock.set(item.index(), Some(amount));
            k = k + 1;
        }
        proof { assert(parts.warehouse_stock@.take(parts.warehouse_stock@.len() as int) =~= parts.warehouse_stock@); }
        let ghost model = parts_model(parts);
        let limit: u128 = 3 * (u32::MAX as u128);
        let dw = match sum_deposits(&parts.deposits) { Some(w) => w, None => { return Err(malformed("the goods exceed the limit")); } };
        let bw = match sum_buildings(&parts.buildings) { Some(w) => w, None => { return Err(malformed("the goods exceed the limit")); } };
        let tw = match sum_trucks(&parts.trucks) { Some(w) => w, None => { return Err(malformed("the goods exceed the limit")); } };
        let mut sw: u128 = 0;
        let mut k: usize = 0;
        while k < ITEM_COUNT
            invariant
                k <= ITEM_COUNT,
                stock@.len() == ITEM_COUNT,
                sw == stock_weight(stock@.take(k as int)),
                sw <= k * 110 * (u32::MAX as nat),
            decreases ITEM_COUNT - k,
        {
            proof { lemma_stock_prefix(stock@, k as int); }
            let amount: u128 = match stock[k] { Some(n) => n as u128, None => 0 };
            let w = cargo_weight(Some(ItemId::from_index(k)));
            assert(amount * w <= 110 * 4294967295) by (nonlinear_arith)
                requires
                    amount <= 4294967295,
                    w <= 110;
            sw = sw + amount * w;
            k = k + 1;
        }
        proof { assert(stock@.take(ITEM_COUNT as int) =~= stock@); }
        let total = dw + bw + tw + sw + 3 * (parts.market.revenue as u128) + 3 * (parts.market.sold_total as u128);
        if total > limit {
            return Err(malformed("the goods exceed the limit"));
        }
        let game = CompactGame {
            tick: parts.tick,
            roads: parts.roads,
            deposits: parts.deposits,
            buildings: parts.buildings,
            trucks: parts.trucks,
            warehouse_stock: stock,
            market: parts.market,
            building_limit: parts.building_limit,
            events: parts.events,
        };
        proof {
            assert(game@ == model);
        }
        Ok(game)
    }
}

/// What a save's parts hold of a state.
pub open spec fn saved_as(m: CompactModel, p: CompactGameParts) -> bool {
    &&& p.tick == m.tick
    &&& p.roads@.to_set() == m.roads
    &&& sorted_cells(p.roads@)
    &&& p.deposits@ == m.deposits
    &&& p.buildings@ == m.buildings
    &&& p.trucks@.len() == m.trucks.len()
    &&& forall|i: int| 0 <= i < p.trucks@.len() ==> same_truck(#[trigger] p.trucks@[i], m.trucks[i])
    &&& p.warehouse_stock@ == stock_entries(m.stock)
    &&& p.market == m.market
    &&& p.building_limit == m.building_limit
    &&& texts(p.events@) == m.events
}

/// Two states alike but for how the trucks' routes are stored.
pub open spec fn same_state(a: CompactModel, b: CompactModel) -> bool {
    &&& a.tick == b.tick
    &&& a.roads == b.roads
    &&& a.deposits == b.deposits
    &&& a.buildings == b.buildings
    &&& a.stock == b.stock
    &&& a.market == b.market
    &&& a.building_limit == b.building_limit
    &&& a.events == b.events
    &&& a.trucks.len() == b.trucks.len()
    &&& forall|i: int| 0 <= i < a.trucks.len() ==> same_truck(#[trigger] a.trucks[i], b.trucks[i])
}

proof fn lemma_entries_restore(stock: Seq<Option<u32>>, k: int)
    requires
        stock.len() == ITEM_COUNT,
        0 <= k <= ITEM_COUNT,
    ensures
        stock_from_entries(stock_entries(stock.take(k))) == Seq::new(ITEM_COUNT as nat, |r: int| if r < k { stock[r] } else { None::<u32> }),
    decreases k,
{
    if k == 0 {
        assert(stock.take(0) =~= Seq::<Option<u32>>::empty());
        assert(stock_from_entries(Seq::<(ItemId, u32)>::empty()) =~= Seq::new(ITEM_COUNT as nat, |r: int| if r < k { stock[r] } else { None::<u32> }));
    } else {
        lemma_entries_restore(stock, k - 1);
        let t = stock.take(k);
        assert(t.drop_last() =~= stock.take(k - 1));
        let before = stock_entries(stock.take(k - 1));
        let item = crate::content::item_at((k - 1) as nat);
        assert(crate::content::item_rank(item) == k - 1);
        match stock[k - 1] {
            Some(n) => {
                assert(stock_entries(t) == before.push((item, n)));
                assert(before.push((item, n)).drop_last() =~= before);
                assert(stock_from_entries(before.push((item, n))) =~= Seq::new(ITEM_COUNT as nat, |r: int| if r < k { stock[r] } else { None::<u32> }));
            },
            None => {
                assert(stock_from_entries(stock_entries(t)) =~= Seq::new(ITEM_COUNT as nat, |r: int| if r < k { stock[r] } else { None::<u32> }));
            },
        }
    }
}

/// Saving a game keeps all of it: the parts a game is saved as are admissible,
/// and restoring them gives the same state.
pub proof fn law_save_round_trip(game: CompactGame, parts: CompactGameParts)
    requires
        game.wf(),
        saved_as(game@, parts),
    ensures
        admissible(parts),
        same_state(parts_model(parts), game@),
{
    game.lemma_wf_roads();
    let m = game@;
    let pm = parts_model(parts);
    lemma_entries_restore(m.stock, ITEM_COUNT as int);
    assert(m.stock.take(ITEM_COUNT as int) =~= m.stock);
    assert(pm.stock =~= m.stock);
    assert(pm.events == m.events);
    assert forall|i: int| 0 <= i < parts.roads@.len() implies in_bounds(#[trigger] parts.roads@[i]) by {
        assert(parts.roads@.to_set().contains(parts.roads@[i]));
    }
    assert(trucks_on_roads(parts.roads@.to_set(), parts.trucks@)) by {
        reveal(trucks_on_roads);
        assert forall|i: int| 0 <= i < parts.trucks@.len() implies {
            let t = #[trigger] parts.trucks@[i];
            &&& parts.roads@.to_set().contains(t.position)
            &&& road_walk(parts.roads@.to_set(), t.position, t.route@)
        } by {
            assert(same_truck(parts.trucks@[i], m.trucks[i]));
            assert(m.roads.contains(m.trucks[i].position));
        }
    }
    assert(sum_of(pm.trucks, truck_weights()) == sum_of(m.trucks, truck_weights())) by {
        assert forall|i: int| 0 <= i < pm.trucks.len() implies truck_weights()(pm.trucks[i]) == truck_weights()(#[trigger] m.trucks[i]) by {
            assert(same_truck(parts.trucks@[i], m.trucks[i]));
        }
        lemma_sum_pointwise(pm.trucks, m.trucks, truck_weights(), truck_weights());
    }
}

pub open spec fn deposit_holds(item: ItemId) -> spec_fn(CompactDepositSnapshot) -> nat {
    |d: CompactDepositSnapshot| if d.item == item { d.stockpile as nat } else { 0nat }
}

/// What a building holds of an item: its input if its recipe takes the item,
/// and its output if its recipe makes it.
pub open spec fn building_holds(item: ItemId) -> spec_fn(CompactBuildingSnapshot) -> nat {
    |b: CompactBuildingSnapshot| match b.recipe {
        Some(recipe) => (if recipe_input(recipe) == item { b.input_stock as nat } else { 0nat })
            + (if recipe_output(recipe) == item { b.output_stock as nat } else { 0nat }),
        None => 0nat,
    }
}

pub open spec fn truck_holds(item: ItemId) -> spec_fn(CompactTruckSnapshot) -> nat {
    |t: CompactTruckSnapshot| if t.cargo_item == Some(item) { t.cargo_quantity as nat } else { 0nat }
}

pub open spec fn entry_of(item: ItemId) -> spec_fn((ItemId, u32)) -> bool {
    |e: (ItemId, u32)| e.0 == item
}

/// The warehouse stock of an item: its first entry, or nothing.
pub open spec fn warehouse_holds(entries: Seq<(ItemId, u32)>, item: ItemId) -> nat {
    match crate::tally::first_index(entries, entry_of(item)) {
        Some(i) => entries[i].1 as nat,
        None => 0,
    }
}

pub open spec fn sat_add(a: nat, b: nat) -> nat {
    if a + b > u32::MAX { u32::MAX as nat } else { a + b }
}

/// How much of an item the compact world holds in deposits' stockpiles,
/// buildings, trucks and the warehouse, saturating at the largest `u32`.
pub open spec fn held_total(s: CompactSnapshot, item: ItemId) -> nat {
    sat_add(sat_add(sat_add(sum_of(s.deposits@, deposit_holds(item)), sum_of(s.buildings@, building_holds(item))),
        sum_of(s.trucks@, truck_holds(item))), warehouse_holds(s.warehouse_stock@, item))
}

/// How much of an item the compact world holds in every stockpile: deposits,
/// buildings, trucks and the warehouse. Each kind of place is summed within
/// `u32`; the total saturates.
pub fn total_item(snapshot: &CompactSnapshot, item: ItemId) -> (r: u32)
    requires
        sum_of(snapshot.deposits@, deposit_holds(item)) <= u32::MAX,
        sum_of(snapshot.buildings@, building_holds(item)) <= u32::MAX,
        sum_of(snapshot.trucks@, truck_holds(item)) <= u32::MAX,
    ensures
        r == held_total(*snapshot, item),
{
    let mut deposits: u32 = 0;
    let mut k: usize = 0;
    while k < snapshot.deposits.len()
        invariant
            k <= snapshot.deposits@.len(),
            sum_of(snapshot.deposits@, deposit_holds(item)) <= u32::MAX,
            deposits == sum_of(snapshot.deposits@.take(k as int), deposit_holds(item)),
        decreases snapshot.deposits@.len() - k,
    {
        proof {
            crate::tally::lemma_prefix_step(snapshot.deposits@, k as int, |d: CompactDepositSnapshot| true, deposit_holds(item));
            lemma_sum_prefix_le(snapshot.deposits@, k as int + 1, deposit_holds(item));
        }
        if snapshot.deposits[k].item == item {
            deposits = deposits + snapshot.deposits[k].stockpile;
        }
        k = k + 1;
    }
    let mut buildings: u32 = 0;
    let mut k: usize = 0;
    while k < snapshot.buildings.len()
        invariant
            k <= snapshot.buildings@.len(),
            sum_of(snapshot.buildings@, building_holds(item)) <= u32::MAX,
            buildings == sum_of(snapshot.buildings@.take(k as int), building_holds(item)),
        decreases snapshot.buildings@.len() - k,
    {
        proof {
            crate::tally::lemma_prefix_step(snapshot.buildings@, k as int, |b: CompactBuildingSnapshot| true, building_holds(item));
            lemma_sum_prefix_le(snapshot.buildings@, k as int + 1, building_holds(item));
        }
        let b = &snapshot.buildings[k];
        match b.recipe {
            Some(recipe) => {
                if recipe.input() == item {
                    buildings = buildings + b.input_stock;
                }
                if recipe.output() == item {
                    buildings = buildings + b.output_stock;
                }
            },
            None => {},
        }
        k = k + 1;
    }
    let mut trucks: u32 = 0;
    let mut k: usize = 0;
    while k < snapshot.trucks.len()
        invariant
            k <= snapshot.trucks@.len(),
            sum_of(snapshot.trucks@, truck_holds(item)) <= u32::MAX,
            trucks == sum_of(snapshot.trucks@.take(k as int), truck_holds(item)),
        decreases snapshot.trucks@.len() - k,
    {
        proof {
            crate::tally::lemma_prefix_step(snapshot.trucks@, k as int, |t: CompactTruckSnapshot| true, truck_holds(item));
            lemma_sum_prefix_le(snapshot.trucks@, k as int + 1, truck_holds(item));
        }
        if snapshot.trucks[k].cargo_item == Some(item) {
            trucks = trucks + snapshot.trucks[k].cargo_quantity;
        }
        k = k + 1;
    }
    let mut stored: u32 = 0;
    let mut found = false;
    let mut k: usize = 0;
    while k < snapshot.warehouse_stock.len() && !found
        invariant
            k <= snapshot.warehouse_stock@.len(),
            found ==> stored as nat == warehouse_holds(snapshot.warehouse_stock@, item),
            !found ==> stored == 0,
            !found ==> forall|j: int| 0 <= j < k ==> !entry_of(item)(#[trigger] snapshot.warehouse_stock@[j]),
        decreases snapshot.warehouse_stock@.len() - k, (if found { 0int } else { 1int }),
    {
        if snapshot.warehouse_stock[k].0 == item {
            proof {
                assert(entry_of(item)(snapshot.warehouse_stock@[k as int]));
                crate::tally::lemma_first_index(snapshot.warehouse_stock@, entry_of(item), k as int);
            }
            stored = snapshot.warehouse_stock[k].1;
            found = true;
        } else {
            k = k + 1;
        }
    }
    proof {
        if !found {
            crate::tally::lemma_first_index(snapshot.warehouse_stock@, entry_of(item), k as int);
        }
        assert(snapshot.deposits@.take(snapshot.deposits@.len() as int) =~= snapshot.deposits@);
        assert(snapshot.buildings@.take(snapshot.buildings@.len() as int) =~= snapshot.buildings@);
        assert(snapshot.trucks@.take(snapshot.trucks@.len() as int) =~= snapshot.trucks@);
    }
    assert(deposits == sum_of(snapshot.deposits@, deposit_holds(item)));
    assert(buildings == sum_of(snapshot.buildings@, building_holds(item)));
    assert(trucks == sum_of(snapshot.trucks@, truck_holds(item)));
    assert(stored == warehouse_holds(snapshot.warehouse_stock@, item));
    let a = deposits.saturating_add(buildings);
    assert(a == sat_add(deposits as nat, buildings as nat));
    let b = a.saturating_add(trucks);
    let c = b.saturating_add(stored);
    c
}

} // verus!
