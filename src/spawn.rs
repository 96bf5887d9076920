use vstd::prelude::*;
use crate::uniforms::UniformData;
use crate::unit::Point;
use crate::update::on_right;

verus! {

#[verifier::external_type_specification]
#[verifier::external_body]
pub struct ExThreadRng(rand::rngs::ThreadRng);

/// Relies on rand's `Rng::gen_range` on the half-open range `lo..hi` of
/// `i32`: a value in that range. It panics on an empty range, which
/// `requires` leaves out.
#[verifier::external_body]
fn draw(rng: &mut rand::rngs::ThreadRng, lo: i32, hi: i32) -> (r: i32)
    requires
        lo < hi,
    ensures
        lo <= r < hi,
{
    rand::Rng::gen_range(rng, lo..hi)
}

/// Gap that keeps the two armies apart at the start, on each side of the
/// vertical axis.
pub const START_GAP: i32 = 20;

/// How far from the centre units start along an axis: 47% of the world's
/// extent on that axis.
pub open spec fn reach(extent: int) -> int {
    extent * 47 / 100
}

/// `p` is a starting position for unit `i`: the left army on the left of
/// the world, the right army on the right, both within `reach` of the centre
/// and at least `START_GAP` from the vertical axis.
pub open spec fn placed(p: Point, i: int, u: UniformData) -> bool {
    &&& -reach(u.world.y as int) <= p.y < reach(u.world.y as int)
    &&& if on_right(i, u) {
        START_GAP <= p.x < reach(u.world.x as int)
    } else {
        -reach(u.world.x as int) <= p.x < -START_GAP
    }
}

/// The world leaves room for both armies.
pub open spec fn has_room(u: UniformData) -> bool {
    reach(u.world.x as int) > START_GAP && reach(u.world.y as int) > 0
}

/// A random starting position for unit `i`.
pub fn start_position(rng: &mut rand::rngs::ThreadRng, i: i32, u: &UniformData) -> (r: Point)
    requires
        u.wf(),
        has_room(*u),
    ensures
        placed(r, i as int, *u),
{
    let rx = (u.world.x as i64 * 47 / 100) as i32;
    let ry = (u.world.y as i64 * 47 / 100) as i32;
    let y = draw(rng, -ry, ry);
    let x = if i > u.logical_count / 2 {
        draw(rng, START_GAP, rx)
    } else {
        draw(rng, -rx, -START_GAP)
    };
    Point { x, y }
}

/// Random starting positions for every unit slot of `u`, the `i`th for
/// unit `i`.
pub fn random_positions(rng: &mut rand::rngs::ThreadRng, u: &UniformData) -> (r: Vec<Point>)
    requires
        u.wf(),
        has_room(*u),
    ensures
        r@.len() == u.unit_count,
        forall|i: int| 0 <= i < r@.len() ==> placed(#[trigger] r@[i], i, *u),
{
    let mut out: Vec<Point> = Vec::new();
    let mut i: i32 = 0;
    while i < u.unit_count
        invariant
            u.wf(),
            has_room(*u),
            0 <= i <= u.unit_count,
            out@.len() == i,
            forall|k: int| 0 <= k < i ==> placed(#[trigger] out@[k], k, *u),
        decreases u.unit_count - i,
    {
        let p = start_position(rng, i, u);
        out.push(p);
        i = i + 1;
    }
    out
}

} // verus!
