use vstd::prelude::*;
use crate::padding::pow2;
use crate::sort::{sort_stages, stages, stages_view};
use crate::uniforms::ALPHA_ONE;
use crate::unit::{Point, Unit};

verus! {

/// Work items per workgroup of the per-unit kernels.
pub const WORKGROUP_SIZE: u32 = 256;

/// Side of the square workgroups that clear the display image.
pub const CLEAR_TILE: u32 = 32;

/// The kernel programs that the stages dispatch.
#[derive(Clone, Copy, PartialEq, Eq, Structural, Debug)]
pub enum Kernel {
    Hash,
    Sort,
    HashIndices,
    Update,
    Clear,
    Render,
}

/// One dispatch: a kernel, the sort parameters it sees, and the grid of
/// workgroups it runs on.
#[derive(Clone, Copy, PartialEq, Eq, Structural, Debug)]
pub struct Dispatch {
    pub kernel: Kernel,
    pub level: i32,
    pub step: i32,
    pub groups_x: u32,
    pub groups_y: u32,
}

/// The least number of groups of `per` that hold `items`.
pub open spec fn ceil_div(items: int, per: int) -> int {
    items / per + if items % per == 0 {
        0int
    } else {
        1int
    }
}

/// Number of workgroups of `per` items needed for `items` items.
pub fn workgroups(items: u32, per: u32) -> (r: u32)
    requires
        per > 0,
    ensures
        r == ceil_div(items as int, per as int),
{
    let q = items / per;
    proof {
        assert(items == q * per + items % per) by (nonlinear_arith)
            requires per > 0, q == items / per;
        assert(q * per <= items) by (nonlinear_arith)
            requires items == q * per + items % per, items % per >= 0;
        assert(q <= items) by (nonlinear_arith)
            requires q * per <= items, per >= 1, q >= 0;
    }
    if items % per == 0 {
        q
    } else {
        proof {
            assert(per >= 2);
            assert(q * 2 <= items) by (nonlinear_arith)
                requires q * per <= items, per >= 2, q >= 0;
        }
        q + 1
    }
}

/// A dispatch of a kernel that does not sort.
pub open spec fn plain(kernel: Kernel, groups: int) -> Dispatch {
    Dispatch { kernel, level: 1, step: 1, groups_x: groups as u32, groups_y: 1 }
}

/// The dispatches of the sort network for `2^k` units.
pub open spec fn sort_dispatches(k: nat, count: int) -> Seq<Dispatch> {
    stages(k).map_values(
        |st: (int, int)|
            Dispatch {
                kernel: Kernel::Sort,
                level: st.0 as i32,
                step: st.1 as i32,
                groups_x: ceil_div(count, 2 * WORKGROUP_SIZE) as u32,
                groups_y: 1,
            },
    )
}

/// The dispatches of one tick for `2^k` units, in the order in which they
/// must run: hash, every sort stage, cell index, update.
pub open spec fn tick_dispatches(k: nat, count: int) -> Seq<Dispatch> {
    seq![plain(Kernel::Hash, ceil_div(count, WORKGROUP_SIZE as int))] + sort_dispatches(k, count)
        + seq![
        plain(Kernel::HashIndices, ceil_div(count, WORKGROUP_SIZE as int)),
        plain(Kernel::Update, ceil_div(count, WORKGROUP_SIZE as int)),
    ]
}

/// The dispatch list of one tick for `count` units.
pub fn tick_plan(count: u32) -> (r: Vec<Dispatch>)
    requires
        exists|k: nat| k <= 30 && pow2(k) == count,
    ensures
        forall|k: nat| pow2(k) == count ==> r@ == tick_dispatches(k, count as int),
{
    let per_unit = workgroups(count, WORKGROUP_SIZE);
    let per_pair = workgroups(count, 2 * WORKGROUP_SIZE);
    let st = sort_stages(count as usize);
    let mut out: Vec<Dispatch> = Vec::new();
    out.push(Dispatch { kernel: Kernel::Hash, level: 1, step: 1, groups_x: per_unit, groups_y: 1 });
    let mut i: usize = 0;
    while i < st.len()
        invariant
            i <= st.len(),
            out@.len() == i + 1,
            out@[0] == plain(Kernel::Hash, ceil_div(count as int, WORKGROUP_SIZE as int)),
            per_pair == ceil_div(count as int, 2 * WORKGROUP_SIZE),
            forall|j: int|
                0 <= j < i ==> #[trigger] out@[j + 1] == (Dispatch {
                    kernel: Kernel::Sort,
                    level: st@[j].level,
                    step: st@[j].step,
                    groups_x: per_pair,
                    groups_y: 1,
                }),
        decreases st.len() - i,
    {
        out.push(Dispatch { kernel: Kernel::Sort, level: st[i].level, step: st[i].step, groups_x: per_pair, groups_y: 1 });
        i = i + 1;
    }
    out.push(Dispatch { kernel: Kernel::HashIndices, level: 1, step: 1, groups_x: per_unit, groups_y: 1 });
    out.push(Dispatch { kernel: Kernel::Update, level: 1, step: 1, groups_x: per_unit, groups_y: 1 });
    proof {
        assert forall|k: nat| pow2(k) == count implies out@ == tick_dispatches(k, count as int) by {
            assert(stages_view(st@) == stages(k));
            let want = tick_dispatches(k, count as int);
            let sd = sort_dispatches(k, count as int);
            assert(sd.len() == st@.len());
            assert forall|j: int| 0 <= j < out@.len() implies out@[j] == want[j] by {
                if 1 <= j <= st@.len() {
                    assert(stages_view(st@)[j - 1] == (st@[j - 1].level as int, st@[j - 1].step as int));
                    assert(out@[(j - 1) + 1] == out@[j]);
                }
            }
            assert(out@ =~= want);
        }
    }
    out
}

/// The dispatches that draw a frame: clear the image tile by tile, then draw
/// every unit.
pub open spec fn frame_dispatches(width: int, height: int, count: int) -> Seq<Dispatch> {
    seq![
        Dispatch {
            kernel: Kernel::Clear,
            level: 1,
            step: 1,
            groups_x: ceil_div(width, CLEAR_TILE as int) as u32,
            groups_y: ceil_div(height, CLEAR_TILE as int) as u32,
        },
        plain(Kernel::Render, ceil_div(count, WORKGROUP_SIZE as int)),
    ]
}

/// The dispatch list that draws a frame of `width` by `height` pixels with
/// `count` units.
pub fn render_plan(width: u32, height: u32, count: u32) -> (r: Vec<Dispatch>)
    ensures
        r@ == frame_dispatches(width as int, height as int, count as int),
{
    let clear = Dispatch {
        kernel: Kernel::Clear,
        level: 1,
        step: 1,
        groups_x: workgroups(width, CLEAR_TILE),
        groups_y: workgroups(height, CLEAR_TILE),
    };
    let draw = Dispatch {
        kernel: Kernel::Render,
        level: 1,
        step: 1,
        groups_x: workgroups(count, WORKGROUP_SIZE),
        groups_y: 1,
    };
    let out = vec![clear, draw];
    assert(out@ =~= frame_dispatches(width as int, height as int, count as int));
    out
}

/// `a + (b - a) * alpha`, with `alpha` in millionths, rounded down.
pub open spec fn lerp(a: int, b: int, alpha: int) -> int {
    a + ((b - a) * alpha) / (ALPHA_ONE as int)
}

fn lerp_axis(a: i32, b: i32, alpha: u32) -> (r: i32)
    requires
        alpha < ALPHA_ONE,
    ensures
        r == lerp(a as int, b as int, alpha as int),
{
    let n: i64 = 1_000_000;
    let diff: i64 = b as i64 - a as i64;
    proof {
        assert(-0x1_0000_0000 <= diff <= 0x1_0000_0000);
        assert(-0x1_0000_0000 * 1_000_000 <= diff * alpha <= 0x1_0000_0000 * 1_000_000) by (nonlinear_arith)
            requires -0x1_0000_0000 <= diff <= 0x1_0000_0000, 0 <= alpha < 1_000_000;
    }
    let d: i64 = diff * alpha as i64;
    let q: i64 = if d >= 0 {
        d / n
    } else {
        -((-d + n - 1) / n)
    };
    proof {
        if d >= 0 {
            vstd::arithmetic::div_mod::lemma_fundamental_div_mod(d as int, n as int);
        } else {
            let nn: int = 1_000_000;
            let m: int = -(d as int) + nn - 1;
            let qq: int = m / nn;
            assert(m == qq * nn + m % nn) by (nonlinear_arith)
                requires qq == m / nn, nn > 0;
            assert(0 <= m % nn < nn);
            assert(q == -qq);
            assert(d == (-qq) * nn + (qq * nn + d)) by (nonlinear_arith);
            vstd::arithmetic::div_mod::lemma_fundamental_div_mod_converse(d as int, nn, -qq, qq * nn + d);
        }
        assert(q == d as int / ALPHA_ONE as int);
        assert(-0x1_0000_0000 <= q <= 0x1_0000_0000) by (nonlinear_arith)
            requires q == d / 1_000_000, -0x1_0000_0000 * 1_000_000 <= d <= 0x1_0000_0000 * 1_000_000;
        assert(diff * alpha <= 0 ==> q <= 0) by (nonlinear_arith)
            requires q == d / 1_000_000, d == diff * alpha;
        assert(diff * alpha >= 0 ==> q >= 0) by (nonlinear_arith)
            requires q == d / 1_000_000, d == diff * alpha;
        assert(diff >= 0 ==> q <= diff) by (nonlinear_arith)
            requires q == d / 1_000_000, d == diff * alpha, 0 <= alpha < 1_000_000;
        assert(diff <= 0 ==> q >= diff) by (nonlinear_arith)
            requires q == d / 1_000_000, d == diff * alpha, 0 <= alpha < 1_000_000;
    }
    proof {
        assert(d == (b as int - a as int) * alpha);
        assert(diff >= 0 ==> diff * alpha >= 0) by (nonlinear_arith)
            requires alpha >= 0;
        assert(diff <= 0 ==> diff * alpha <= 0) by (nonlinear_arith)
            requires alpha >= 0;
        assert(a as int + q >= i32::MIN && a as int + q <= i32::MAX);
    }
    (a as i64 + q) as i32
}

/// Where a renderer draws `unit`: `alpha` of the way from its previous to its
/// current position.
pub fn interpolate(unit: &Unit, alpha: u32) -> (r: Point)
    requires
        alpha < ALPHA_ONE,
    ensures
        r.x == lerp(unit.previous_state.x as int, unit.current_state.x as int, alpha as int),
        r.y == lerp(unit.previous_state.y as int, unit.current_state.y as int, alpha as int),
{
    Point {
        x: lerp_axis(unit.previous_state.x, unit.current_state.x, alpha),
        y: lerp_axis(unit.previous_state.y, unit.current_state.y, alpha),
    }
}

} // verus!
