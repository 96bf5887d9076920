use vstd::prelude::*;
use crate::padding::is_pow2;
use crate::unit::Point;

verus! {

/// Camera zoom is kept in thousandths; it never falls below this.
pub const MIN_ZOOM: i32 = 100;

/// `alpha` is kept in millionths: `ALPHA_ONE` stands for `1`.
pub const ALPHA_ONE: u64 = 1_000_000;

/// Per-dispatch configuration, read by every stage.
#[derive(Clone, Copy, PartialEq, Eq, Structural, Debug)]
pub struct UniformData {
    /// Size of the display image in pixels.
    pub dimensions: Point,
    /// Size of the simulated world; the world is centred on the origin.
    pub world: Point,
    /// Number of unit slots, a power of two.
    pub unit_count: i32,
    /// Number of real units; the slots from here on are padding.
    pub logical_count: i32,
    /// Block size of the current sort stage.
    pub level: i32,
    /// Step of the current sort stage.
    pub step: i32,
    /// Side of a grid cell.
    pub grid_size: i32,
    pub grid_width: i32,
    pub grid_height: i32,
    /// Zoom in thousandths, at least `MIN_ZOOM`.
    pub camera_zoom: i32,
    pub camera_position: Point,
    /// Interpolation factor in millionths, in `[0, ALPHA_ONE)`.
    pub alpha: i32,
}

impl UniformData {
    /// The number of grid cells, and so the length of the cell index table.
    pub open spec fn cell_count(self) -> int {
        self.grid_width * self.grid_height
    }

    pub open spec fn wf(self) -> bool {
        &&& 0 < self.grid_size
        &&& 0 < self.world.x && 0 < self.world.y
        &&& self.grid_width == self.world.x / self.grid_size
        &&& self.grid_height == self.world.y / self.grid_size
        &&& self.cell_count() < 0x7fff_ffff
        &&& is_pow2(self.unit_count as int)
        &&& 0 <= self.logical_count <= self.unit_count
        &&& MIN_ZOOM <= self.camera_zoom
        &&& 0 <= self.alpha < ALPHA_ONE
    }

    /// The block for a world of size `world` cut into cells of side
    /// `grid_size`, holding `logical_count` units in `unit_count` slots.
    pub fn new(dimensions: Point, world: Point, grid_size: i32, unit_count: i32, logical_count: i32) -> (r: UniformData)
        requires
            0 < grid_size,
            0 < world.x,
            0 < world.y,
            (world.x / grid_size) * (world.y / grid_size) < 0x7fff_ffff,
            is_pow2(unit_count as int),
            0 <= logical_count <= unit_count,
        ensures
            r.wf(),
            r.dimensions == dimensions,
            r.world == world,
            r.grid_size == grid_size,
            r.grid_width == world.x / grid_size,
            r.grid_height == world.y / grid_size,
            r.unit_count == unit_count,
            r.logical_count == logical_count,
            r.level == 1,
            r.step == 1,
            r.camera_zoom == 250,
            r.camera_position == (Point { x: 0, y: 0 }),
            r.alpha == 0,
    {
        UniformData {
            dimensions,
            world,
            unit_count,
            logical_count,
            level: 1,
            step: 1,
            grid_size,
            grid_width: world.x / grid_size,
            grid_height: world.y / grid_size,
            camera_zoom: 250,
            camera_position: Point { x: 0, y: 0 },
            alpha: 0,
        }
    }

    /// The block that one sort stage sees: this one with the stage's `level`
    /// and `step`.
    pub fn for_stage(&self, level: i32, step: i32) -> (r: UniformData)
        ensures
            r == (UniformData { level, step, ..*self }),
    {
        UniformData { level, step, ..*self }
    }

    /// The number of grid cells.
    pub fn cells(&self) -> (r: usize)
        requires
            self.wf(),
        ensures
            r == self.cell_count(),
    {
        proof {
            assert(self.grid_width >= 0 && self.grid_height >= 0);
            assert(self.grid_width * self.grid_height >= 0) by (nonlinear_arith)
                requires self.grid_width >= 0 && self.grid_height >= 0;
        }
        (self.grid_width as i64 * self.grid_height as i64) as usize
    }

    /// Scrolls the zoom by `delta` thousandths (a positive `delta` zooms
    /// out), never below `MIN_ZOOM`.
    pub fn zoom_by(&mut self, delta: i32)
        requires
            old(self).wf(),
        ensures
            final(self).wf(),
            final(self).camera_zoom == if old(self).camera_zoom - delta < MIN_ZOOM {
                MIN_ZOOM as int
            } else if old(self).camera_zoom - delta > 0x7fff_ffff {
                0x7fff_ffff
            } else {
                old(self).camera_zoom - delta
            },
            *final(self) == (UniformData { camera_zoom: final(self).camera_zoom, ..*old(self) }),
    {
        let z = self.camera_zoom as i64 - delta as i64;
        self.camera_zoom = if z < MIN_ZOOM as i64 {
            MIN_ZOOM
        } else if z > 0x7fff_ffff {
            0x7fff_ffff
        } else {
            z as i32
        };
    }
}

} // verus!
