use vstd::prelude::*;
use crate::hash::is_padding;
use crate::uniforms::UniformData;
use crate::unit::{Point, Unit, NONE};

verus! {

/// Distance a unit moves per tick along each axis when it closes on a target.
pub const SPEED: i32 = 1;

/// Units are in two armies: those whose identity is above half the number of
/// real units, and the rest.
pub open spec fn on_right(id: int, u: UniformData) -> bool {
    id > u.logical_count / 2
}

/// A unit that takes part in interactions: a real unit with health left.
pub open spec fn alive(unit: Unit, u: UniformData) -> bool {
    unit.health > 0 && !is_padding(unit.id as int, u)
}

/// Squared distance between two points.
pub open spec fn dist2(a: Point, b: Point) -> int {
    (a.x - b.x) * (a.x - b.x) + (a.y - b.y) * (a.y - b.y)
}

/// Position `c` holds a unit that the unit at `i` may attack.
pub open spec fn eligible(s: Seq<Unit>, u: UniformData, i: int, c: int) -> bool {
    c != i && alive(s[c], u) && on_right(s[c].id as int, u) != on_right(s[i].id as int, u)
}

/// End of the run of key `h` that goes on from position `j`.
pub open spec fn run_end(s: Seq<Unit>, h: int, j: int) -> int
    decreases s.len() - j,
{
    if 0 <= j < s.len() && s[j].hash_id == h {
        run_end(s, h, j + 1)
    } else {
        j
    }
}

/// The nearest unit that the unit at `i` may attack among positions
/// `start..j`, the first of them on a tie; `-1` if there is none.
pub open spec fn nearest(s: Seq<Unit>, u: UniformData, i: int, start: int, j: int) -> int
    decreases j - start,
{
    if j <= start {
        -1
    } else {
        let b = nearest(s, u, i, start, j - 1);
        let c = j - 1;
        if eligible(s, u, i, c) && (b < 0 || dist2(s[i].current_state, s[c].current_state) < dist2(
            s[i].current_state,
            s[b].current_state,
        )) {
            c
        } else {
            b
        }
    }
}

/// The position at which the cell of the unit at `i` starts, when the unit
/// interacts and the table gives one; `-1` otherwise.
pub open spec fn run_of(s: Seq<Unit>, t: Seq<i32>, u: UniformData, i: int) -> int {
    let h = s[i].hash_id as int;
    if alive(s[i], u) && 0 <= h < t.len() && 0 <= t[h] < s.len() {
        t[h] as int
    } else {
        -1
    }
}

/// The target of the unit at `i`: the nearest unit of the other army in its
/// cell's run of the sorted order, or `-1`.
pub open spec fn target(s: Seq<Unit>, t: Seq<i32>, u: UniformData, i: int) -> int {
    let start = run_of(s, t, u, i);
    if start < 0 {
        -1
    } else {
        nearest(s, u, i, start, run_end(s, s[i].hash_id as int, start))
    }
}

pub open spec fn clamp(v: int, lo: int, hi: int) -> int {
    if v < lo {
        lo
    } else if v > hi {
        hi
    } else {
        v
    }
}

pub open spec fn sign(v: int) -> int {
    if v > 0 {
        1
    } else if v < 0 {
        -1
    } else {
        0
    }
}

/// `p` moved by `v`. A unit may leave the world, where it has no cell; only
/// the range of `i32` stops it.
pub open spec fn moved(p: Point, v: Point) -> Point {
    Point {
        x: clamp(p.x + v.x, i32::MIN as int, i32::MAX as int) as i32,
        y: clamp(p.y + v.y, i32::MIN as int, i32::MAX as int) as i32,
    }
}

/// The unit at `i` after one tick. A unit out of the fight stops. A unit with
/// a target loses one health, records the target's identity and heads for
/// it. Every unit then moves by its velocity and keeps its old position as
/// `previous_state`.
pub open spec fn updated(s: Seq<Unit>, t: Seq<i32>, u: UniformData, i: int) -> Unit {
    let me = s[i];
    let b = target(s, t, u, i);
    let velocity = if !alive(me, u) {
        Point { x: 0, y: 0 }
    } else if b >= 0 {
        Point {
            x: (SPEED * sign(s[b].current_state.x - me.current_state.x)) as i32,
            y: (SPEED * sign(s[b].current_state.y - me.current_state.y)) as i32,
        }
    } else {
        me.velocity
    };
    Unit {
        previous_state: me.current_state,
        current_state: moved(me.current_state, velocity),
        velocity,
        attack_id: if b >= 0 {
            s[b].id
        } else {
            NONE
        },
        health: if b >= 0 {
            (me.health - 1) as i32
        } else {
            me.health
        },
        ..me
    }
}

/// All units after one tick; each is computed from the units as they were
/// before it.
pub open spec fn updated_all(s: Seq<Unit>, t: Seq<i32>, u: UniformData) -> Seq<Unit> {
    Seq::new(s.len(), |i: int| updated(s, t, u, i))
}

proof fn lemma_run_end(s: Seq<Unit>, h: int, a: int, j: int)
    requires
        0 <= a <= j <= s.len(),
        forall|m: int| a <= m < j ==> s[m].hash_id == h,
        j == s.len() || s[j].hash_id != h,
    ensures
        run_end(s, h, a) == j,
    decreases j - a,
{
    if a < j {
        lemma_run_end(s, h, a + 1, j);
    }
}

proof fn lemma_nearest_range(s: Seq<Unit>, u: UniformData, i: int, start: int, j: int)
    ensures
        nearest(s, u, i, start, j) == -1 || start <= nearest(s, u, i, start, j) < j,
    decreases j - start,
{
    if j > start {
        lemma_nearest_range(s, u, i, start, j - 1);
    }
}

fn is_alive(unit: &Unit, u: &UniformData) -> (r: bool)
    ensures
        r == alive(*unit, *u),
{
    unit.health > 0 && !(unit.id < 0 || unit.id >= u.logical_count)
}

fn is_right(id: i32, u: &UniformData) -> (r: bool)
    requires
        u.logical_count >= 0,
    ensures
        r == on_right(id as int, *u),
{
    id > u.logical_count / 2
}

fn distance2(a: Point, b: Point) -> (r: i128)
    ensures
        r == dist2(a, b),
{
    let dx: i128 = a.x as i128 - b.x as i128;
    let dy: i128 = a.y as i128 - b.y as i128;
    proof {
        assert(dx * dx <= 0x1_0000_0000_0000_0000) by (nonlinear_arith)
            requires -0x1_0000_0000 <= dx <= 0x1_0000_0000;
        assert(dy * dy <= 0x1_0000_0000_0000_0000) by (nonlinear_arith)
            requires -0x1_0000_0000 <= dy <= 0x1_0000_0000;
        assert(dx * dx >= 0 && dy * dy >= 0) by (nonlinear_arith);
    }
    dx * dx + dy * dy
}

/// The target of the unit at `i`, as a position in `units`.
pub fn find_target(units: &Vec<Unit>, table: &Vec<i32>, u: &UniformData, i: usize) -> (r: Option<usize>)
    requires
        u.wf(),
        i < units.len(),
    ensures
        match r {
            Some(b) => b == target(units@, table@, *u, i as int) && b < units.len(),
            None => target(units@, table@, *u, i as int) == -1,
        },
{
    let ghost s = units@;
    let me = units[i];
    let h = me.hash_id;
    if !is_alive(&me, u) || h < 0 || h as usize >= table.len() {
        return None;
    }
    let t = table[h as usize];
    if t < 0 || t as usize >= units.len() {
        return None;
    }
    let start = t as usize;
    let my_right = is_right(me.id, u);
    let mut best: Option<usize> = None;
    let mut best_d: i128 = 0;
    let mut j: usize = start;
    while j < units.len() && units[j].hash_id == h
        invariant
            s == units@,
            u.wf(),
            i < units.len(),
            start <= j <= units.len(),
            me == s[i as int],
            my_right == on_right(me.id as int, *u),
            forall|m: int| start <= m < j ==> s[m].hash_id == h,
            match best {
                Some(b) => b == nearest(s, *u, i as int, start as int, j as int) && start <= b < j
                    && best_d == dist2(me.current_state, s[b as int].current_state),
                None => nearest(s, *u, i as int, start as int, j as int) == -1,
            },
        decreases units.len() - j,
    {
        let c = units[j];
        if j != i && is_alive(&c, u) && is_right(c.id, u) != my_right {
            let d = distance2(me.current_state, c.current_state);
            match best {
                Some(_) => {
                    if d < best_d {
                        best = Some(j);
                        best_d = d;
                    }
                },
                None => {
                    best = Some(j);
                    best_d = d;
                },
            }
        }
        j = j + 1;
    }
    proof {
        lemma_run_end(s, h as int, start as int, j as int);
    }
    best
}

fn step_toward(from: i32, to: i32) -> (r: i32)
    ensures
        r == SPEED * sign(to - from),
{
    if to > from {
        SPEED
    } else if to < from {
        -SPEED
    } else {
        0
    }
}

fn move_axis(p: i32, v: i32) -> (r: i32)
    ensures
        r == clamp(p + v, i32::MIN as int, i32::MAX as int),
{
    let w: i64 = p as i64 + v as i64;
    if w < i32::MIN as i64 {
        i32::MIN
    } else if w > i32::MAX as i64 {
        i32::MAX
    } else {
        w as i32
    }
}

/// The unit at `i` after one tick.
pub fn update_unit(units: &Vec<Unit>, table: &Vec<i32>, u: &UniformData, i: usize) -> (r: Unit)
    requires
        u.wf(),
        i < units.len(),
    ensures
        r == updated(units@, table@, *u, i as int),
{
    let me = units[i];
    let b = find_target(units, table, u, i);
    let velocity = if !is_alive(&me, u) {
        Point { x: 0, y: 0 }
    } else {
        match b {
            Some(k) => Point {
                x: step_toward(me.current_state.x, units[k].current_state.x),
                y: step_toward(me.current_state.y, units[k].current_state.y),
            },
            None => me.velocity,
        }
    };
    let current = Point {
        x: move_axis(me.current_state.x, velocity.x),
        y: move_axis(me.current_state.y, velocity.y),
    };
    let (attack_id, health) = match b {
        Some(k) => (units[k].id, me.health - 1),
        None => (NONE, me.health),
    };
    Unit {
        previous_state: me.current_state,
        current_state: current,
        velocity,
        attack_id,
        health,
        ..me
    }
}

/// Advances every unit by one tick, all from the same snapshot.
pub fn update_units(units: &Vec<Unit>, table: &Vec<i32>, u: &UniformData) -> (r: Vec<Unit>)
    requires
        u.wf(),
    ensures
        r@ == updated_all(units@, table@, *u),
{
    let mut out: Vec<Unit> = Vec::new();
    let mut i: usize = 0;
    while i < units.len()
        invariant
            u.wf(),
            i <= units.len(),
            out@.len() == i,
            forall|k: int| 0 <= k < i ==> out@[k] == updated(units@, table@, *u, k),
        decreases units.len() - i,
    {
        out.push(update_unit(units, table, u, i));
        i = i + 1;
    }
    assert(out@ =~= updated_all(units@, table@, *u));
    out
}

} // verus!
