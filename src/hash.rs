use vstd::prelude::*;
use crate::uniforms::UniformData;
use crate::unit::{Point, Unit, NO_CELL};

verus! {

/// The grid cell that holds position `p`, or `NO_CELL` off the grid. Cell
/// `(cx, cy)` covers the positions whose offset from the world's lower corner
/// divided by the cell side (rounded down) is `(cx, cy)`.
pub open spec fn cell_of(p: Point, u: UniformData) -> int {
    let ox = p.x + u.world.x / 2;
    let oy = p.y + u.world.y / 2;
    if ox < 0 || oy < 0 {
        NO_CELL as int
    } else {
        let cx = ox / (u.grid_size as int);
        let cy = oy / (u.grid_size as int);
        if cx < u.grid_width && cy < u.grid_height {
            cy * u.grid_width + cx
        } else {
            NO_CELL as int
        }
    }
}

/// The slot of unit identity `id` is padding.
pub open spec fn is_padding(id: int, u: UniformData) -> bool {
    id < 0 || id >= u.logical_count
}

/// The hash key of `unit`: its cell, or `NO_CELL` for a padding slot.
pub open spec fn hash_of(unit: Unit, u: UniformData) -> int {
    if is_padding(unit.id as int, u) {
        NO_CELL as int
    } else {
        cell_of(unit.current_state, u)
    }
}

/// `units` with each `hash_id` recomputed.
pub open spec fn hashed(units: Seq<Unit>, u: UniformData) -> Seq<Unit> {
    Seq::new(units.len(), |i: int| Unit { hash_id: hash_of(units[i], u) as i32, ..units[i] })
}

proof fn lemma_cell_bounds(cx: int, cy: int, w: int, h: int)
    requires
        0 <= cx < w,
        0 <= cy < h,
        w * h < 0x7fff_ffff,
    ensures
        0 <= cy * w + cx < w * h,
{
    assert(cy * w + cx < w * h) by (nonlinear_arith)
        requires 0 <= cx < w, 0 <= cy < h;
    assert(0 <= cy * w) by (nonlinear_arith)
        requires 0 <= cy, 0 < w;
}

/// The cell of position `p`: `0 <= r < cells` on the grid, else `NO_CELL`.
pub fn cell_hash(p: Point, u: &UniformData) -> (r: i32)
    requires
        u.wf(),
    ensures
        r == cell_of(p, *u),
        r == NO_CELL || 0 <= r < u.cell_count(),
{
    let ox: i64 = p.x as i64 + (u.world.x / 2) as i64;
    let oy: i64 = p.y as i64 + (u.world.y / 2) as i64;
    if ox < 0 || oy < 0 {
        return NO_CELL;
    }
    let cx: i64 = ox / u.grid_size as i64;
    let cy: i64 = oy / u.grid_size as i64;
    if cx < u.grid_width as i64 && cy < u.grid_height as i64 {
        proof {
            lemma_cell_bounds(cx as int, cy as int, u.grid_width as int, u.grid_height as int);
        }
        (cy * u.grid_width as i64 + cx) as i32
    } else {
        NO_CELL
    }
}

/// The hash key of one unit.
pub fn unit_hash(unit: &Unit, u: &UniformData) -> (r: i32)
    requires
        u.wf(),
    ensures
        r == hash_of(*unit, *u),
        r == NO_CELL || 0 <= r < u.cell_count(),
{
    if unit.id < 0 || unit.id >= u.logical_count {
        NO_CELL
    } else {
        cell_hash(unit.current_state, u)
    }
}

/// Writes every unit's `hash_id`; nothing else changes.
pub fn hash_units(units: &mut Vec<Unit>, u: &UniformData)
    requires
        u.wf(),
    ensures
        final(units)@ == hashed(old(units)@, *u),
{
    let ghost start = units@;
    let mut i: usize = 0;
    while i < units.len()
        invariant
            u.wf(),
            i <= units.len() == start.len(),
            forall|k: int| 0 <= k < i ==> units@[k] == hashed(start, *u)[k],
            forall|k: int| i <= k < units.len() ==> units@[k] == start[k],
        decreases units.len() - i,
    {
        let mut unit = units[i];
        unit.hash_id = unit_hash(&unit, u);
        units.set(i, unit);
        i = i + 1;
    }
    assert(units@ =~= hashed(start, *u));
}

} // verus!
