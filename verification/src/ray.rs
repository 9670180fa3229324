//! The DDA grid traversal: the mathematical model of a single ray cast.
//!
//! A ray is described by integer data only: the starting cell, a step
//! direction per axis, and — instead of the real-valued `sideDist` and
//! `deltaDist` of the textbook algorithm — the exact numerators of those
//! quantities. The accumulated travel to the next x-boundary after `kx`
//! x-steps is `(fx + kx·FP_ONE) / rx` in units where `rx` is the magnitude
//! of the x-component of the ray numerator, so the "which axis crosses a
//! boundary first" comparison becomes an exact integer cross-multiplication.

use vstd::prelude::*;

use crate::fixed::FP_ONE;

verus! {

/// Flat index of grid cell `(x, y)`: the map is indexed `x + y·h` (row-major
/// by the map's second dimension — note the asymmetry: the height, not the
/// width, is the stride).
pub open spec fn cell_index(x: int, y: int, h: int) -> int {
    x + y * h
}

/// Whether the cell at `(x, y)` holds a non-zero (solid) code.
pub open spec fn cell_solid(map: Seq<u32>, h: int, x: int, y: int) -> bool {
    map[cell_index(x, y, h)] > 0
}

/// The `x + y·h` convention stays inside a `w·h` buffer whenever the grid is
/// at least as wide as it is high.
pub proof fn lemma_cell_index_in_range(x: int, y: int, w: int, h: int)
    requires
        0 <= x < w,
        0 <= y < h,
        h <= w,
    ensures
        0 <= cell_index(x, y, h) < w * h,
{
    assert(0 <= x + y * h < w * h) by (nonlinear_arith)
        requires
            0 <= x < w,
            0 <= y < h,
            h <= w,
    ;
}

/// The integer data of one ray traversal.
pub struct RaySetup {
    /// The world map cells.
    pub map: Seq<u32>,
    /// Grid width.
    pub w: int,
    /// Grid height (also the stride of [`cell_index`]).
    pub h: int,
    /// Starting cell.
    pub x0: int,
    /// Starting cell.
    pub y0: int,
    /// Step direction along x: `-1` or `1`.
    pub sx: int,
    /// Step direction along y: `-1` or `1`.
    pub sy: int,
    /// Fixed-point distance (in grid units, scaled by `FP_ONE`) from the
    /// camera to the first x-boundary, measured along the x axis; in `[0, FP_ONE]`.
    pub fx: int,
    /// Likewise for the first y-boundary.
    pub fy: int,
    /// Magnitude of the x-component of the ray-direction numerator.
    pub rx: int,
    /// Magnitude of the y-component of the ray-direction numerator.
    pub ry: int,
}

impl RaySetup {
    /// The bounds every traversal relies on.
    pub open spec fn wf(self) -> bool {
        &&& 2 <= self.h <= self.w <= 4096
        &&& self.map.len() == self.w * self.h
        &&& 0 <= self.x0 < self.w
        &&& 0 <= self.y0 < self.h
        &&& (self.sx == 1 || self.sx == -1)
        &&& (self.sy == 1 || self.sy == -1)
        &&& 0 <= self.fx <= FP_ONE as int
        &&& 0 <= self.fy <= FP_ONE as int
        &&& 0 <= self.rx
        &&& 0 <= self.ry
    }

    /// Enough fuel for any traversal that stays in the grid: each step moves
    /// one cell monotonically along one axis, so after `w + h` steps the ray
    /// has left the grid or hit a wall.
    pub open spec fn fuel(self) -> nat {
        (self.w + self.h + 2) as nat
    }
}

/// How a traversal ended: the number of boundary crossings per axis, the
/// axis crossed last (`side`: 0 for x, 1 for y), and whether a solid cell
/// was hit (`false` means the ray escaped an unenclosed map and the column
/// is left to the background).
pub struct RayEnd {
    /// x-boundary crossings.
    pub kx: int,
    /// y-boundary crossings.
    pub ky: int,
    /// Axis advanced last: 0 = x, 1 = y.
    pub side: int,
    /// Whether a solid cell terminated the traversal.
    pub hit: bool,
}

/// The DDA advance decision after `kx` x-steps and `ky` y-steps: advance
/// along x exactly when its accumulated boundary distance is strictly
/// smaller. The exact comparison `(fx + kx)/rx < (fy + ky)/ry` (in units of
/// `FP_ONE`) is cross-multiplied; a zero ray component makes its own side
/// infinite (never smaller), which the cross-multiplied form reproduces.
pub open spec fn advances_x(p: RaySetup, kx: int, ky: int) -> bool {
    (p.fx + kx * (FP_ONE as int)) * p.ry < (p.fy + ky * (FP_ONE as int)) * p.rx
}

/// One whole traversal from the state `(kx, ky, side)`, with `fuel` steps
/// left: advance along the axis whose boundary comes first; stop with
/// `hit == false` if the next cell lies outside the grid (or the fuel is
/// out, which [`RaySetup::fuel`] makes unreachable), with `hit == true` as
/// soon as the cell just entered is solid.
pub open spec fn dda(p: RaySetup, kx: int, ky: int, side: int, fuel: nat) -> RayEnd
    decreases fuel,
{
    if fuel == 0 {
        RayEnd { kx, ky, side, hit: false }
    } else if advances_x(p, kx, ky) {
        let nx = p.x0 + p.sx * (kx + 1);
        if nx < 0 || p.w <= nx {
            RayEnd { kx, ky, side, hit: false }
        } else if cell_solid(p.map, p.h, nx, p.y0 + p.sy * ky) {
            RayEnd { kx: kx + 1, ky, side: 0, hit: true }
        } else {
            dda(p, kx + 1, ky, 0, (fuel - 1) as nat)
        }
    } else {
        let ny = p.y0 + p.sy * (ky + 1);
        if ny < 0 || p.h <= ny {
            RayEnd { kx, ky, side, hit: false }
        } else if cell_solid(p.map, p.h, p.x0 + p.sx * kx, ny) {
            RayEnd { kx, ky: ky + 1, side: 1, hit: true }
        } else {
            dda(p, kx, ky + 1, 1, (fuel - 1) as nat)
        }
    }
}

/// The end state of the full traversal of `p`.
pub open spec fn ray_end(p: RaySetup) -> RayEnd {
    dda(p, 0, 0, 0, p.fuel())
}

} // verus!
