//! What is put into the cells of a corridor: spikes along its bottom and
//! top where they leave room for the ship, and in the room that is left an
//! enemy or a crystal.

use vstd::prelude::*;
use rand::rngs::StdRng;
use crate::cell::Cell;
use crate::random::{choose_cell, draw_between, draw_fraction, toss};
use crate::unit::{coord_in_range, is_unit_fraction, Position};

verus! {

/// The sizes that decide what fits into a cell.
#[derive(Clone, Copy, Debug, PartialEq, Eq, Structural)]
pub struct PlacementRules {
    /// The radius of the disc that the ship fills.
    pub ship_radius: i64,
    /// How far the spikes reach into the corridor.
    pub decoration_height: i64,
    /// The least size of a thing that is placed.
    pub min_size: i64,
    /// The greatest size of a thing that is placed.
    pub max_size: i64,
}

impl PlacementRules {
    /// The sizes are in range and the least size is not above the greatest.
    pub open spec fn wf(self) -> bool {
        &&& coord_in_range(self.ship_radius as int)
        &&& coord_in_range(self.decoration_height as int)
        &&& coord_in_range(self.min_size as int)
        &&& coord_in_range(self.max_size as int)
        &&& self.min_size <= self.max_size
    }
}

/// All that the placing in one cell draws.
#[derive(Clone, Copy, Debug, PartialEq, Eq, Structural)]
pub struct PlacementDraw {
    /// The size of the thing.
    pub size: i64,
    /// The thing is an enemy, if the cell has room for one.
    pub hostile: bool,
    /// Which quarter of the cell an enemy is put into.
    pub quarter: usize,
    /// Where the thing is put, from left to right.
    pub x: i64,
    /// Where an enemy is put, from the bottom up.
    pub y: i64,
}

impl PlacementDraw {
    /// The size lies between the rules' sizes, the quarter is one of four
    /// and the two places are fractions between zero and one.
    pub open spec fn admissible(self, rules: PlacementRules) -> bool {
        &&& rules.min_size <= self.size <= rules.max_size
        &&& self.quarter < 4
        &&& is_unit_fraction(self.x as int)
        &&& is_unit_fraction(self.y as int)
    }
}

/// What is placed in a cell.
#[derive(Clone, Copy, Debug, PartialEq, Eq, Structural)]
pub enum Spawn {
    Nothing,
    Enemy { at: Position, size: i64 },
    Crystal { at: Position, size: i64 },
}

/// The two slices of a cell that are filled with spikes.
#[derive(Clone, Copy, Debug, PartialEq, Eq, Structural)]
pub struct Slices {
    pub bottom: Cell,
    pub top: Cell,
}

/// What is done with a cell.
#[derive(Clone, Copy, Debug, PartialEq, Eq, Structural)]
pub struct CellPlan {
    /// The slices along the bottom and along the top that are filled with
    /// spikes, if the cell has room for them.
    pub slices: Option<Slices>,
    /// The part of the cell that the spikes leave free.
    pub free: Cell,
    pub spawn: Spawn,
}

/// The slices for the spikes along the bottom and the top of a cell, and
/// the cell that they leave free: the cell shrunk by the height of the
/// spikes along its sides.  None unless the ship fits into the shrunk cell.
pub open spec fn decorated(cell: Cell, rules: PlacementRules) -> Option<(Cell, Cell, Cell)> {
    match (
        cell.shrunk_y(rules.decoration_height as int),
        cell.bottom_slice(rules.decoration_height as int),
        cell.top_slice(rules.decoration_height as int),
    ) {
        (Some(inner), Some(bottom), Some(top)) => if inner.has_room_for(rules.ship_radius as int) {
            Some((bottom, top, inner))
        } else {
            None
        },
        _ => None,
    }
}

/// The part of a cell that its spikes leave free: all of it where it has
/// none.
pub open spec fn free_part(cell: Cell, rules: PlacementRules) -> Cell {
    match decorated(cell, rules) {
        Some((_, _, inner)) => inner,
        None => cell,
    }
}

/// The quarter of a cell with the number `k`, counted row by row from the
/// bottom left.
pub open spec fn quarter(cell: Cell, k: int) -> Cell {
    cell.sub_cell(2, 2, k % 2, k / 2)
}

/// One if the ship does not fit into the cell, else zero.
pub open spec fn cramped(cell: Cell, radius: int) -> int {
    if cell.has_room_for(radius) {
        0
    } else {
        1
    }
}

/// A cell has room for an enemy if the ship fits into at least two of its
/// quarters, so that it can pass.
pub open spec fn can_hold_enemy(cell: Cell, radius: int) -> bool {
    cramped(quarter(cell, 0), radius) + cramped(quarter(cell, 1), radius) + cramped(
        quarter(cell, 2),
        radius,
    ) + cramped(quarter(cell, 3), radius) < 3
}

/// What is placed in the free part of a cell.
///
/// Where there is room for an enemy and the draw is hostile, an enemy: it
/// is put into the drawn quarter, shrunk by its size so that it keeps away
/// from the edges, and left out if nothing with its corners in order is
/// left of the quarter.  Else a crystal on the bottom edge.
pub open spec fn spawned(free: Cell, rules: PlacementRules, draw: PlacementDraw) -> Spawn {
    if can_hold_enemy(free, rules.ship_radius as int) && draw.hostile {
        match quarter(free, draw.quarter as int).shrunk(draw.size as int) {
            Some(inner) => if inner.valid() {
                Spawn::Enemy { at: inner.point_at(draw.x as int, draw.y as int), size: draw.size }
            } else {
                Spawn::Nothing
            },
            None => Spawn::Nothing,
        }
    } else {
        Spawn::Crystal { at: free.point_at(draw.x as int, 0), size: draw.size }
    }
}

/// What is done with a cell for the given draw.
pub open spec fn planned(cell: Cell, rules: PlacementRules, draw: PlacementDraw) -> CellPlan {
    CellPlan {
        slices: match decorated(cell, rules) {
            Some((bottom, top, _)) => Some(Slices { bottom, top }),
            None => None,
        },
        free: free_part(cell, rules),
        spawn: spawned(free_part(cell, rules), rules, draw),
    }
}

/// `plan` is what is done with the cell for some admissible draw.
pub open spec fn is_plan_of(plan: CellPlan, cell: Cell, rules: PlacementRules) -> bool {
    exists|draw: PlacementDraw|
        draw.admissible(rules) && plan == #[trigger] planned(cell, rules, draw)
}

/// The slices for the spikes of a cell and the part that they leave free.
pub fn decorate(cell: &Cell, rules: &PlacementRules) -> (r: Option<(Cell, Cell, Cell)>)
    requires
        cell.wf(),
        rules.wf(),
    ensures
        r == decorated(*cell, *rules),
        r matches Some(parts) ==> parts.0.wf() && parts.1.wf() && parts.2.wf(),
{
    let inner: Cell = match cell.get_shrinked_y(rules.decoration_height) {
        None => {
            return None;
        },
        Some(c) => c,
    };
    let bottom: Cell = match cell.get_bottom_slice(rules.decoration_height) {
        None => {
            return None;
        },
        Some(c) => c,
    };
    let top: Cell = match cell.get_top_slice(rules.decoration_height) {
        None => {
            return None;
        },
        Some(c) => c,
    };
    if inner.can_contains(rules.ship_radius) {
        Some((bottom, top, inner))
    } else {
        None
    }
}

/// The four quarters of a cell, and whether there is room for an enemy.
fn quarters_of(free: &Cell, radius: i64) -> (r: (Vec<Cell>, bool))
    requires
        free.wf(),
        coord_in_range(radius as int),
    ensures
        r.0@.len() == 4,
        forall|k: int| 0 <= k < 4 ==> #[trigger] r.0@[k] == quarter(*free, k),
        forall|k: int| 0 <= k < 4 ==> (#[trigger] r.0@[k]).wf(),
        r.1 == can_hold_enemy(*free, radius as int),
{
    let quarters: Vec<Cell> = free.split(2);
    assert(quarters@.len() == 4);
    assert(quarters@[0] == quarter(*free, 0));
    assert(quarters@[1] == quarter(*free, 1));
    assert(quarters@[2] == quarter(*free, 2));
    assert(quarters@[3] == quarter(*free, 3));
    let mut cramped_count: u8 = 0;
    if !quarters[0].can_contains(radius) {
        cramped_count = cramped_count + 1;
    }
    if !quarters[1].can_contains(radius) {
        cramped_count = cramped_count + 1;
    }
    if !quarters[2].can_contains(radius) {
        cramped_count = cramped_count + 1;
    }
    if !quarters[3].can_contains(radius) {
        cramped_count = cramped_count + 1;
    }
    (quarters, cramped_count < 3)
}

/// What is done with a cell for the given draw.
pub fn plan_cell_for(cell: &Cell, rules: &PlacementRules, draw: &PlacementDraw) -> (plan: CellPlan)
    requires
        cell.wf(),
        rules.wf(),
        draw.admissible(*rules),
    ensures
        plan == planned(*cell, *rules, *draw),
        plan.free.wf(),
{
    let (slices, free): (Option<Slices>, Cell) = match decorate(cell, rules) {
        Some((bottom, top, inner)) => (Some(Slices { bottom, top }), inner),
        None => (None, *cell),
    };
    let (quarters, room) = quarters_of(&free, rules.ship_radius);
    let spawn: Spawn = if room && draw.hostile {
        match quarters[draw.quarter].get_shrinked(draw.size) {
            Some(inner) => if inner.is_valid() {
                Spawn::Enemy { at: inner.get_point(draw.x, draw.y), size: draw.size }
            } else {
                Spawn::Nothing
            },
            None => Spawn::Nothing,
        }
    } else {
        Spawn::Crystal { at: free.get_point(draw.x, 0), size: draw.size }
    };
    CellPlan { slices, free, spawn }
}

/// What is done with a cell, with all that is open drawn at random: the
/// size of the thing, whether it is an enemy where there is room for
/// one, the quarter for an enemy and the place.
pub fn plan_cell(cell: &Cell, rules: &PlacementRules, rng: &mut StdRng) -> (plan: CellPlan)
    requires
        cell.wf(),
        rules.wf(),
    ensures
        is_plan_of(plan, *cell, *rules),
        plan.free.wf(),
{
    let size: i64 = draw_between(rng, rules.min_size, rules.max_size);
    let (slices, free): (Option<Slices>, Cell) = match decorate(cell, rules) {
        Some((bottom, top, inner)) => (Some(Slices { bottom, top }), inner),
        None => (None, *cell),
    };
    let (quarters, room) = quarters_of(&free, rules.ship_radius);
    let hostile: bool = room && toss(rng);
    if hostile {
        let picked: Cell = choose_cell(&quarters, rng);
        let ghost k: int = choose|k: int| 0 <= k < quarters@.len() && quarters@[k] == picked;
        let x: i64 = draw_fraction(rng);
        let y: i64 = draw_fraction(rng);
        let ghost draw = PlacementDraw { size, hostile: true, quarter: k as usize, x, y };
        let spawn: Spawn = match picked.get_shrinked(size) {
            Some(inner) => if inner.is_valid() {
                Spawn::Enemy { at: inner.get_point(x, y), size }
            } else {
                Spawn::Nothing
            },
            None => Spawn::Nothing,
        };
        let plan = CellPlan { slices, free, spawn };
        assert(draw.admissible(*rules) && plan == planned(*cell, *rules, draw));
        plan
    } else {
        let x: i64 = draw_fraction(rng);
        let ghost draw = PlacementDraw { size, hostile: false, quarter: 0, x, y: 0 };
        let plan = CellPlan {
            slices,
            free,
            spawn: Spawn::Crystal { at: free.get_point(x, 0), size },
        };
        assert(draw.admissible(*rules) && plan == planned(*cell, *rules, draw));
        plan
    }
}

/// What is done with each cell of a corridor but the first one and the
/// last one, which are kept for the start and for the way out.
pub fn plan_cells(cells: &Vec<Cell>, rules: &PlacementRules, rng: &mut StdRng) -> (plans: Vec<
    CellPlan,
>)
    requires
        cells@.len() >= 2,
        forall|i: int| 0 <= i < cells@.len() ==> (#[trigger] cells@[i]).wf(),
        rules.wf(),
    ensures
        plans@.len() == cells@.len() - 2,
        forall|i: int|
            0 <= i < plans@.len() ==> is_plan_of(#[trigger] plans@[i], cells@[i + 1], *rules),
{
    let mut plans: Vec<CellPlan> = Vec::new();
    let inner_count: usize = cells.len() - 2;
    let mut i: usize = 0;
    while i < inner_count
        invariant
            inner_count == cells@.len() - 2,
            i <= inner_count,
            forall|k: int| 0 <= k < cells@.len() ==> (#[trigger] cells@[k]).wf(),
            rules.wf(),
            plans@.len() == i,
            forall|k: int|
                0 <= k < plans@.len() ==> is_plan_of(#[trigger] plans@[k], cells@[k + 1], *rules),
        decreases inner_count - i,
    {
        let plan: CellPlan = plan_cell(&cells[i + 1], rules, rng);
        plans.push(plan);
        i = i + 1;
    }
    plans
}

} // verus!
