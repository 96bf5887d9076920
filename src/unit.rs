use vstd::prelude::*;

verus! {

/// A point or a displacement in integer world coordinates.
#[derive(Clone, Copy, PartialEq, Eq, Structural, Debug)]
pub struct Point {
    pub x: i32,
    pub y: i32,
}

/// One simulated unit.
///
/// `previous_state` and `current_state` are the positions after the last two
/// ticks, so that a renderer can interpolate between them. `hash_id` and
/// `attack_id` are scratch values of the current tick. `attack_id` names the
/// current target by its identity (its `id`, which stays with it), not by its
/// position in the store, which the sort changes every tick; it is `NONE`
/// without a target.
#[derive(Clone, Copy, PartialEq, Eq, Structural, Debug)]
pub struct Unit {
    pub previous_state: Point,
    pub current_state: Point,
    pub velocity: Point,
    pub hash_id: i32,
    pub attack_id: i32,
    pub id: i32,
    pub health: i32,
}

/// Health a unit starts with.
pub const START_HEALTH: i32 = 4;

/// `hash_id` of a unit that lies in no cell: off the grid, or a padding slot.
/// It is the largest `i32`, so such units sort after all others.
pub const NO_CELL: i32 = 0x7fff_ffff;

/// `attack_id` of a unit without a target, and the empty entry of the cell
/// index table.
pub const NONE: i32 = -1;

impl Point {
    pub fn new(x: i32, y: i32) -> (r: Point)
        ensures
            r == (Point { x, y }),
    {
        Point { x, y }
    }
}

/// A unit as it is created: at rest at `position`, full health, no cell and
/// no target yet.
pub open spec fn spawned(id: int, position: Point) -> Unit {
    Unit {
        previous_state: position,
        current_state: position,
        velocity: Point { x: 0, y: 0 },
        hash_id: NONE,
        attack_id: NONE,
        id: id as i32,
        health: START_HEALTH,
    }
}

impl Unit {
    /// A new unit with identity `id` at `position`.
    pub fn spawn(id: i32, position: Point) -> (r: Unit)
        ensures
            r == spawned(id as int, position),
    {
        Unit {
            previous_state: position,
            current_state: position,
            velocity: Point { x: 0, y: 0 },
            hash_id: NONE,
            attack_id: NONE,
            id,
            health: START_HEALTH,
        }
    }

    /// The same unit with `velocity` set.
    pub fn with_velocity(self, velocity: Point) -> (r: Unit)
        ensures
            r == (Unit { velocity, ..self }),
    {
        Unit { velocity, ..self }
    }
}

/// The units of a store, in order, created from `positions`: the `i`th has
/// identity `i`.
pub open spec fn spawned_all(positions: Seq<Point>) -> Seq<Unit> {
    Seq::new(positions.len(), |i: int| spawned(i, positions[i]))
}

/// Builds the unit store from the starting positions, giving each unit its
/// index as identity.
pub fn spawn_units(positions: &Vec<Point>) -> (r: Vec<Unit>)
    requires
        positions.len() <= 0x7fff_ffff,
    ensures
        r@ == spawned_all(positions@),
{
    let mut units: Vec<Unit> = Vec::new();
    let mut i: usize = 0;
    while i < positions.len()
        invariant
            i <= positions.len() <= 0x7fff_ffff,
            units@ == spawned_all(positions@.take(i as int)),
        decreases positions.len() - i,
    {
        units.push(Unit::spawn(i as i32, positions[i]));
        i = i + 1;
        assert(units@ =~= spawned_all(positions@.take(i as int)));
    }
    assert(positions@.take(i as int) =~= positions@);
    units
}

} // verus!
