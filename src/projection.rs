use vstd::prelude::*;

verus! {

/// Depth range a surface's `position.z` is scaled into.
pub const MAX_SURFACE_COUNT: u32 = 1024;

/// A rational number `num / den`, kept unreduced.
#[derive(Clone, Copy, Debug)]
pub struct Ratio {
    pub num: i64,
    pub den: u64,
}

/// A point in clip space.
#[derive(Clone, Copy, Debug)]
pub struct ClipPoint {
    pub x: Ratio,
    pub y: Ratio,
    pub z: Ratio,
}

/// The orthographic transform of one display: `[0, width] x [0, height]` onto
/// `[-1, 1] x [1, -1]`, and depth scaled by `1 / max_surface_count`.
#[derive(Clone, Copy, Debug, PartialEq, Eq, Structural)]
pub struct Projection {
    pub width: u32,
    pub height: u32,
    pub max_surface_count: u32,
}

/// Clip-space x of pixel column `px` on a display `w` pixels wide: `2 px / w - 1`.
pub open spec fn clip_x(px: int, w: int) -> Ratio {
    Ratio { num: (2 * px - w) as i64, den: w as u64 }
}

/// Clip-space y of pixel row `py` on a display `h` pixels high: `1 - 2 py / h`.
pub open spec fn clip_y(py: int, h: int) -> Ratio {
    Ratio { num: (h - 2 * py) as i64, den: h as u64 }
}

impl Projection {
    pub fn new(size: [u32; 2], max_surface_count: u32) -> (r: Self)
        ensures
            r == (Projection { width: size[0], height: size[1], max_surface_count }),
    {
        Projection { width: size[0], height: size[1], max_surface_count }
    }

    /// Where the point `position` (in display pixels, depth in `z`) lands.
    pub fn project(&self, position: [i32; 3]) -> (r: ClipPoint)
        ensures
            r.x == clip_x(position[0] as int, self.width as int),
            r.y == clip_y(position[1] as int, self.height as int),
            r.z == (Ratio { num: position[2] as i64, den: self.max_surface_count as u64 }),
    {
        let x = Ratio {
            num: 2 * (position[0] as i64) - self.width as i64,
            den: self.width as u64,
        };
        let y = Ratio {
            num: self.height as i64 - 2 * (position[1] as i64),
            den: self.height as u64,
        };
        let z = Ratio { num: position[2] as i64, den: self.max_surface_count as u64 };
        ClipPoint { x, y, z }
    }
}

} // verus!
