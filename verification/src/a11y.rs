//! The compact game as text, for players who cannot see the grid: a
//! description of the focused cell, the world's inventory line by line, and a
//! short log of recent events.
use vstd::prelude::*;
use crate::content::item_name;
use crate::node::GridPosition;
use crate::player::{
    cell_text, has_frontage, inner, lemma_neighbors, neighbor, recipe_name, CompactBuildingSnapshot,
    CompactDepositSnapshot, CompactSnapshot,
};
use crate::tally::{first_index, lemma_first_index};
use crate::text::{decimal, push_i64, push_str, push_u64, signed_decimal};

verus! {

/// How many recent events the log keeps.
pub const LOG_LIMIT: usize = 6;

/// The log after new events: the old lines and the new ones, of which only
/// the last `LOG_LIMIT` stay.
pub open spec fn remembered(log: Seq<Seq<char>>, events: Seq<Seq<char>>) -> Seq<Seq<char>> {
    let all = log + events;
    if all.len() > LOG_LIMIT { all.skip(all.len() - LOG_LIMIT) } else { all }
}

pub open spec fn lines(v: Seq<String>) -> Seq<Seq<char>> {
    v.map_values(|s: String| s@)
}

/// Adds the events to the log and drops the oldest lines beyond the limit, so
/// a quiet tick keeps the recent past.
pub fn remember(log: &mut Vec<String>, events: &[String])
    ensures
        lines(final(log)@) == remembered(lines(old(log)@), lines(events@)),
{
    let mut k: usize = 0;
    while k < events.len()
        invariant
            k <= events@.len(),
            lines(log@) == lines(old(log)@) + lines(events@.take(k as int)),
        decreases events@.len() - k,
    {
        let line = events[k].clone();
        let ghost prev = log@;
        log.push(line);
        proof {
            assert(line@ == events@[k as int]@);
            assert(lines(log@) =~= lines(prev).push(line@));
            assert(lines(events@.take(k as int + 1)) =~= lines(events@.take(k as int)).push(events@[k as int]@));
            assert(lines(log@) =~= lines(old(log)@) + lines(events@.take(k as int + 1)));
        }
        k = k + 1;
    }
    proof {
        assert(events@.take(events@.len() as int) =~= events@);
    }
    let ghost all = lines(log@);
    if log.len() > LOG_LIMIT {
        let excess = log.len() - LOG_LIMIT;
        let mut kept: Vec<String> = Vec::new();
        let mut j: usize = excess;
        while j < log.len()
            invariant
                excess <= j <= log@.len(),
                lines(kept@) == lines(log@).subrange(excess as int, j as int),
            decreases log@.len() - j,
        {
            let line = log[j].clone();
            let ghost prev = kept@;
            kept.push(line);
            proof {
                assert(line@ == log@[j as int]@);
                assert(lines(kept@) =~= lines(prev).push(line@));
                assert(lines(kept@) =~= lines(log@).subrange(excess as int, j as int + 1));
            }
            j = j + 1;
        }
        *log = kept;
        proof {
            assert(lines(log@) =~= all.skip(all.len() - LOG_LIMIT));
        }
    }
}

pub open spec fn building_text(b: CompactBuildingSnapshot) -> Seq<char> {
    match b.recipe {
        Some(recipe) => "factory "@ + decimal(b.id as nat) + " making "@ + recipe_name(recipe) + ", "@
            + decimal(b.input_stock as nat) + " input and "@ + decimal(b.output_stock as nat) + " output in stock"@,
        None => "factory "@ + decimal(b.id as nat) + ", no recipe assigned"@,
    }
}

pub open spec fn deposit_text(d: CompactDepositSnapshot) -> Seq<char> {
    "a "@ + item_name(d.item) + " deposit, "@ + decimal(d.remaining as nat) + " left in the ground and "@
        + decimal(d.stockpile as nat) + " mined"@
}

pub open spec fn building_at(cell: GridPosition) -> spec_fn(CompactBuildingSnapshot) -> bool {
    |b: CompactBuildingSnapshot| b.position == cell
}

pub open spec fn deposit_at(cell: GridPosition) -> spec_fn(CompactDepositSnapshot) -> bool {
    |d: CompactDepositSnapshot| d.position == cell
}

/// What stands on a cell: the warehouse, else the first building there, else
/// the first deposit there, else a road, else nothing.
pub open spec fn cell_contents(s: CompactSnapshot, cell: GridPosition) -> Seq<char> {
    if cell == s.warehouse_position {
        "the warehouse"@
    } else {
        match first_index(s.buildings@, building_at(cell)) {
            Some(i) => building_text(s.buildings@[i]),
            None => match first_index(s.deposits@, deposit_at(cell)) {
                Some(i) => deposit_text(s.deposits@[i]),
                None => if s.roads@.contains(cell) { "road"@ } else { "empty"@ },
            },
        }
    }
}

/// Whether a cell lies inside the snapshot's world.
pub open spec fn inside(s: CompactSnapshot, cell: GridPosition) -> bool {
    0 <= cell.x < s.width && 0 <= cell.y < s.height
}

/// The sentence describing a cell and its road frontage.
pub open spec fn cell_description(s: CompactSnapshot, cell: GridPosition) -> Seq<char> {
    if !inside(s, cell) {
        "Cell "@ + cell_text(cell) + " is outside the world."@
    } else {
        "Cell "@ + cell_text(cell) + " is "@ + cell_contents(s, cell) + ". It "@
            + (if has_frontage(s.roads@.to_set(), cell) { "has road frontage"@ } else { "has no road frontage"@ }) + "."@
    }
}

fn push_cell(s: &mut String, p: GridPosition)
    ensures
        final(s)@ == old(s)@ + cell_text(p),
{
    push_i64(s, p.x as i64);
    push_str(s, ",");
    push_i64(s, p.y as i64);
    proof { reveal_strlit(","); }
    assert(final(s)@ =~= old(s)@ + cell_text(p));
}

fn contains_cell(cells: &Vec<GridPosition>, p: GridPosition) -> (r: bool)
    ensures
        r == cells@.contains(p),
{
    let mut k: usize = 0;
    while k < cells.len()
        invariant
            k <= cells@.len(),
            forall|j: int| 0 <= j < k ==> cells@[j] != p,
        decreases cells@.len() - k,
    {
        if cells[k] == p {
            return true;
        }
        k = k + 1;
    }
    false
}

fn snapshot_frontage(snapshot: &CompactSnapshot, cell: GridPosition) -> (r: bool)
    requires
        inner(cell),
    ensures
        r == has_frontage(snapshot.roads@.to_set(), cell),
{
    let around = [
        GridPosition { x: cell.x, y: cell.y + 1 },
        GridPosition { x: cell.x, y: cell.y - 1 },
        GridPosition { x: cell.x + 1, y: cell.y },
        GridPosition { x: cell.x - 1, y: cell.y },
    ];
    let mut k: usize = 0;
    while k < 4
        invariant
            k <= 4,
            inner(cell),
            around@[0] == neighbor(cell, 3),
            around@[1] == neighbor(cell, 0),
            around@[2] == neighbor(cell, 2),
            around@[3] == neighbor(cell, 1),
            forall|j: int| 0 <= j < k ==> !snapshot.roads@.contains(#[trigger] around@[j]),
        decreases 4 - k,
    {
        if contains_cell(&snapshot.roads, around[k]) {
            proof {
                lemma_neighbors(cell, around@[k as int]);
                assert(snapshot.roads@.to_set().contains(around@[k as int]));
            }
            return true;
        }
        k = k + 1;
    }
    proof {
        assert forall|q: GridPosition| #[trigger] snapshot.roads@.to_set().contains(q) implies !crate::player::adjacent(cell, q) by {
            lemma_neighbors(cell, q);
            if q == neighbor(cell, 0) { assert(q == around@[1]); }
            if q == neighbor(cell, 1) { assert(q == around@[3]); }
            if q == neighbor(cell, 2) { assert(q == around@[2]); }
            if q == neighbor(cell, 3) { assert(q == around@[0]); }
        }
    }
    false
}

fn push_building(s: &mut String, b: &CompactBuildingSnapshot)
    ensures
        final(s)@ == old(s)@ + building_text(*b),
{
    push_str(s, "factory ");
    push_u64(s, b.id as u64);
    match b.recipe {
        Some(recipe) => {
            push_str(s, " making ");
            push_str(s, recipe.name());
            push_str(s, ", ");
            push_u64(s, b.input_stock as u64);
            push_str(s, " input and ");
            push_u64(s, b.output_stock as u64);
            push_str(s, " output in stock");
        },
        None => {
            push_str(s, ", no recipe assigned");
        },
    }
    proof {
        reveal_strlit("factory ");
        reveal_strlit(" making ");
        reveal_strlit(", ");
        reveal_strlit(" input and ");
        reveal_strlit(" output in stock");
        reveal_strlit(", no recipe assigned");
    }
    assert(final(s)@ =~= old(s)@ + building_text(*b));
}

fn push_deposit(s: &mut String, d: &CompactDepositSnapshot)
    ensures
        final(s)@ == old(s)@ + deposit_text(*d),
{
    push_str(s, "a ");
    push_str(s, d.item.as_str());
    push_str(s, " deposit, ");
    push_u64(s, d.remaining as u64);
    push_str(s, " left in the ground and ");
    push_u64(s, d.stockpile as u64);
    push_str(s, " mined");
    proof {
        reveal_strlit("a ");
        reveal_strlit(" deposit, ");
        reveal_strlit(" left in the ground and ");
        reveal_strlit(" mined");
    }
    assert(final(s)@ =~= old(s)@ + deposit_text(*d));
}

fn push_contents(s: &mut String, snapshot: &CompactSnapshot, cell: GridPosition)
    ensures
        final(s)@ == old(s)@ + cell_contents(*snapshot, cell),
{
    if cell == snapshot.warehouse_position {
        push_str(s, "the warehouse");
        proof { reveal_strlit("the warehouse"); }
        assert(final(s)@ =~= old(s)@ + cell_contents(*snapshot, cell));
        return;
    }
    let mut k: usize = 0;
    while k < snapshot.buildings.len()
        invariant
            k <= snapshot.buildings@.len(),
            cell != snapshot.warehouse_position,
            s@ == old(s)@,
            forall|j: int| 0 <= j < k ==> !building_at(cell)(#[trigger] snapshot.buildings@[j]),
        decreases snapshot.buildings@.len() - k,
    {
        if snapshot.buildings[k].position == cell {
            proof {
                assert(building_at(cell)(snapshot.buildings@[k as int]));
                lemma_first_index(snapshot.buildings@, building_at(cell), k as int);
            }
            push_building(s, &snapshot.buildings[k]);
            return;
        }
        k = k + 1;
    }
    proof { lemma_first_index(snapshot.buildings@, building_at(cell), k as int); }
    let mut k: usize = 0;
    while k < snapshot.deposits.len()
        invariant
            k <= snapshot.deposits@.len(),
            cell != snapshot.warehouse_position,
            first_index(snapshot.buildings@, building_at(cell)) is None,
            s@ == old(s)@,
            forall|j: int| 0 <= j < k ==> !deposit_at(cell)(#[trigger] snapshot.deposits@[j]),
        decreases snapshot.deposits@.len() - k,
    {
        if snapshot.deposits[k].position == cell {
            proof {
                assert(deposit_at(cell)(snapshot.deposits@[k as int]));
                lemma_first_index(snapshot.deposits@, deposit_at(cell), k as int);
            }
            push_deposit(s, &snapshot.deposits[k]);
            return;
        }
        k = k + 1;
    }
    proof { lemma_first_index(snapshot.deposits@, deposit_at(cell), k as int); }
    if contains_cell(&snapshot.roads, cell) {
        push_str(s, "road");
        proof { reveal_strlit("road"); }
    } else {
        push_str(s, "empty");
        proof { reveal_strlit("empty"); }
    }
    assert(final(s)@ =~= old(s)@ + cell_contents(*snapshot, cell));
}

/// A sentence naming what stands on the cell and whether a road runs beside
/// it, or saying that the cell is outside the world.
pub fn describe_cell(snapshot: &CompactSnapshot, cell: GridPosition) -> (r: String)
    ensures
        r@ == cell_description(*snapshot, cell),
{
    let mut s = String::new();
    push_str(&mut s, "Cell ");
    push_cell(&mut s, cell);
    proof { reveal_strlit("Cell "); }
    if cell.x < 0 || cell.y < 0 || cell.x >= snapshot.width || cell.y >= snapshot.height {
        push_str(&mut s, " is outside the world.");
        proof { reveal_strlit(" is outside the world."); }
        assert(s@ =~= cell_description(*snapshot, cell));
        return s;
    }
    push_str(&mut s, " is ");
    push_contents(&mut s, snapshot, cell);
    push_str(&mut s, ". It ");
    if snapshot_frontage(snapshot, cell) {
        push_str(&mut s, "has road frontage");
        proof { reveal_strlit("has road frontage"); }
    } else {
        push_str(&mut s, "has no road frontage");
        proof { reveal_strlit("has no road frontage"); }
    }
    push_str(&mut s, ".");
    proof {
        reveal_strlit(" is ");
        reveal_strlit(". It ");
        reveal_strlit(".");
    }
    assert(s@ =~= cell_description(*snapshot, cell));
    s
}

pub open spec fn header_line(s: CompactSnapshot) -> Seq<char> {
    "World "@ + signed_decimal(s.width as int) + "x"@ + signed_decimal(s.height as int) + ", warehouse at "@
        + cell_text(s.warehouse_position) + "."@
}

pub open spec fn deposit_line(d: CompactDepositSnapshot) -> Seq<char> {
    "Deposit "@ + item_name(d.item) + " at "@ + cell_text(d.position) + ": "@ + decimal(d.remaining as nat) + " left, "@
        + decimal(d.stockpile as nat) + " mined and waiting."@
}

pub open spec fn building_line(b: CompactBuildingSnapshot) -> Seq<char> {
    "Factory "@ + decimal(b.id as nat) + " at "@ + cell_text(b.position) + ": "@
        + (match b.recipe { Some(recipe) => recipe_name(recipe), None => "no recipe"@ }) + ", "@
        + (if b.road_connected { "connected to a road"@ } else { "not connected to a road"@ }) + "."@
}

pub open spec fn stock_entry_text(e: (crate::content::ItemId, u32)) -> Seq<char> {
    decimal(e.1 as nat) + " "@ + item_name(e.0)
}

/// The stock entries, joined by commas.
pub open spec fn joined_stock(entries: Seq<(crate::content::ItemId, u32)>) -> Seq<char>
    decreases entries.len(),
{
    if entries.len() == 0 {
        Seq::empty()
    } else if entries.len() == 1 {
        stock_entry_text(entries[0])
    } else {
        joined_stock(entries.drop_last()) + ", "@ + stock_entry_text(entries.last())
    }
}

pub open spec fn warehouse_line(entries: Seq<(crate::content::ItemId, u32)>) -> Seq<char> {
    if entries.len() == 0 { "Warehouse is empty."@ } else { "Warehouse holds "@ + joined_stock(entries) + "."@ }
}

/// The world's inventory as lines: the world and warehouse, each deposit,
/// each building, and the warehouse stock.
pub open spec fn world_text(s: CompactSnapshot) -> Seq<Seq<char>> {
    seq![header_line(s)] + s.deposits@.map_values(|d: CompactDepositSnapshot| deposit_line(d))
        + s.buildings@.map_values(|b: CompactBuildingSnapshot| building_line(b))
        + seq![warehouse_line(s.warehouse_stock@)]
}

fn push_stock_entry(s: &mut String, e: (crate::content::ItemId, u32))
    ensures
        final(s)@ == old(s)@ + stock_entry_text(e),
{
    push_u64(s, e.1 as u64);
    push_str(s, " ");
    push_str(s, e.0.as_str());
    proof { reveal_strlit(" "); }
    assert(final(s)@ =~= old(s)@ + stock_entry_text(e));
}

/// The world's inventory a sighted player reads off the map in one glance.
pub fn world_lines(snapshot: &CompactSnapshot) -> (r: Vec<String>)
    ensures
        lines(r@) == world_text(*snapshot),
{
    let mut out: Vec<String> = Vec::new();
    let mut line = String::new();
    push_str(&mut line, "World ");
    push_i64(&mut line, snapshot.width as i64);
    push_str(&mut line, "x");
    push_i64(&mut line, snapshot.height as i64);
    push_str(&mut line, ", warehouse at ");
    push_cell(&mut line, snapshot.warehouse_position);
    push_str(&mut line, ".");
    proof {
        reveal_strlit("World ");
        reveal_strlit("x");
        reveal_strlit(", warehouse at ");
        reveal_strlit(".");
        assert(line@ =~= header_line(*snapshot));
    }
    out.push(line);
    let ghost dl = snapshot.deposits@.map_values(|d: CompactDepositSnapshot| deposit_line(d));
    let ghost bl = snapshot.buildings@.map_values(|b: CompactBuildingSnapshot| building_line(b));
    let mut k: usize = 0;
    while k < snapshot.deposits.len()
        invariant
            k <= snapshot.deposits@.len(),
            dl == snapshot.deposits@.map_values(|d: CompactDepositSnapshot| deposit_line(d)),
            lines(out@) == seq![header_line(*snapshot)] + dl.take(k as int),
        decreases snapshot.deposits@.len() - k,
    {
        let d = &snapshot.deposits[k];
        let mut line = String::new();
        push_str(&mut line, "Deposit ");
        push_str(&mut line, d.item.as_str());
        push_str(&mut line, " at ");
        push_cell(&mut line, d.position);
        push_str(&mut line, ": ");
        push_u64(&mut line, d.remaining as u64);
        push_str(&mut line, " left, ");
        push_u64(&mut line, d.stockpile as u64);
        push_str(&mut line, " mined and waiting.");
        proof {
            reveal_strlit("Deposit ");
            reveal_strlit(" at ");
            reveal_strlit(": ");
            reveal_strlit(" left, ");
            reveal_strlit(" mined and waiting.");
            assert(line@ =~= deposit_line(*d));
        }
        let ghost prev = out@;
        out.push(line);
        proof {
            assert(lines(out@) =~= lines(prev).push(line@));
            assert(dl.take(k as int + 1) =~= dl.take(k as int).push(dl[k as int]));
            assert(lines(out@) =~= seq![header_line(*snapshot)] + dl.take(k as int + 1));
        }
        k = k + 1;
    }
    proof {
        assert(dl.take(snapshot.deposits@.len() as int) =~= dl);
    }
    let mut k: usize = 0;
    while k < snapshot.buildings.len()
        invariant
            k <= snapshot.buildings@.len(),
            bl == snapshot.buildings@.map_values(|b: CompactBuildingSnapshot| building_line(b)),
            lines(out@) == seq![header_line(*snapshot)] + dl + bl.take(k as int),
        decreases snapshot.buildings@.len() - k,
    {
        let b = &snapshot.buildings[k];
        let mut line = String::new();
        push_str(&mut line, "Factory ");
        push_u64(&mut line, b.id as u64);
        push_str(&mut line, " at ");
        push_cell(&mut line, b.position);
        push_str(&mut line, ": ");
        match b.recipe {
            Some(recipe) => push_str(&mut line, recipe.name()),
            None => push_str(&mut line, "no recipe"),
        }
        push_str(&mut line, ", ");
        if b.road_connected {
            push_str(&mut line, "connected to a road");
        } else {
            push_str(&mut line, "not connected to a road");
        }
        push_str(&mut line, ".");
        proof {
            reveal_strlit("Factory ");
            reveal_strlit(" at ");
            reveal_strlit(": ");
            reveal_strlit("no recipe");
            reveal_strlit(", ");
            reveal_strlit("connected to a road");
            reveal_strlit("not connected to a road");
            reveal_strlit(".");
            assert(line@ =~= building_line(*b));
        }
        let ghost prev = out@;
        out.push(line);
        proof {
            assert(lines(out@) =~= lines(prev).push(line@));
            assert(bl.take(k as int + 1) =~= bl.take(k as int).push(bl[k as int]));
            assert(lines(out@) =~= seq![header_line(*snapshot)] + dl + bl.take(k as int + 1));
        }
        k = k + 1;
    }
    proof {
        assert(bl.take(snapshot.buildings@.len() as int) =~= bl);
    }
    let mut line = String::new();
    let entries = &snapshot.warehouse_stock;
    if entries.len() == 0 {
        push_str(&mut line, "Warehouse is empty.");
        proof { reveal_strlit("Warehouse is empty."); }
    } else {
        push_str(&mut line, "Warehouse holds ");
        push_stock_entry(&mut line, entries[0]);
        proof {
            reveal_strlit("Warehouse holds ");
            reveal_with_fuel(joined_stock, 2);
            assert(entries@.take(1).len() == 1);
            assert(entries@.take(1)[0] == entries@[0]);
            assert(line@ =~= "Warehouse holds "@ + joined_stock(entries@.take(1)));
        }
        let mut k: usize = 1;
        while k < entries.len()
            invariant
                1 <= k <= entries@.len(),
                line@ == "Warehouse holds "@ + joined_stock(entries@.take(k as int)),
            decreases entries@.len() - k,
        {
            push_str(&mut line, ", ");
            push_stock_entry(&mut line, entries[k]);
            proof {
                reveal_strlit(", ");
                let t = entries@.take(k as int + 1);
                assert(t.drop_last() =~= entries@.take(k as int));
                assert(t.last() == entries@[k as int]);
                assert(line@ =~= "Warehouse holds "@ + joined_stock(t));
            }
            k = k + 1;
        }
        push_str(&mut line, ".");
        proof {
            reveal_strlit(".");
            assert(entries@.take(entries@.len() as int) =~= entries@);
        }
    }
    proof {
        assert(line@ =~= warehouse_line(snapshot.warehouse_stock@));
    }
    let ghost prev = out@;
    out.push(line);
    proof {
        assert(lines(out@) =~= lines(prev).push(line@));
        assert(lines(out@) =~= world_text(*snapshot));
    }
    out
}

} // verus!
