//! The camera model and the per-frame raycast projection.

use vstd::prelude::*;

use crate::fixed::{
    clamp_v, fmul_v, iabs, lemma_quant_shrinks, lemma_rotated_norm_bounded, lemma_sq_le_implies_le,
    norm2, quant, quantize, rot_x, rot_y, Rotation, Vec2, FP_ONE,
};
use crate::ray::{advances_x, cell_index, dda, lemma_cell_index_in_range, ray_end, RayEnd,
    RaySetup};

verus! {

/// Largest accepted map dimension; keeps every intermediate product of the
/// traversal far inside the machine integer range.
pub const MAP_DIM_MAX: usize = 4096;

/// Default camera position on either axis: two tiles in.
pub const START_POS: i64 = 131072;

/// Default facing direction x component: -1 in fixed point.
pub const DIR_X_INIT: i64 = -65536;

/// Default camera-plane y component: 0.66 in fixed point, the classic
/// field-of-view half-width.
pub const PLANE_Y_INIT: i64 = 43254;

/// Largest accepted movement step magnitude per call, in fixed-point units.
pub const SPEED_MAX: i64 = 0x100_0000_0000;

/// The world map, the camera, and the projection over them.
///
/// The map is an immutable-after-load rectangular grid of 32-bit cell codes,
/// stored flat and indexed `x + y·map_h` (see [`crate::ray::cell_index`]).
/// A zero cell is empty; any other value is a solid wall whose bytes encode
/// its color. Position, direction and camera plane are exact fixed-point
/// vectors (see [`crate::fixed`]).
pub struct Renderer {
    /// Flat grid of cell codes, `map_w · map_h` entries.
    pub world_map: Vec<u32>,
    /// Grid width.
    pub map_w: usize,
    /// Grid height; also the stride of the flat indexing.
    pub map_h: usize,
    /// Camera position, clamped to `[0, map_w] × [0, map_h]` in units of `FP_ONE`.
    pub position: Vec2,
    /// Facing direction.
    pub direction: Vec2,
    /// Camera plane: orthogonal-ish to the direction, its magnitude encodes
    /// the field of view.
    pub camera_plane: Vec2,
}

impl Renderer {
    /// Well-formedness: plausible grid dimensions, the flat map exactly
    /// covering them, the position inside the map rectangle, and direction
    /// and plane inside the fixed-point unit disc. `map_h <= map_w` keeps
    /// the `x + y·map_h` indexing inside the buffer.
    pub open spec fn wf(&self) -> bool {
        &&& 2 <= self.map_h as int
        &&& self.map_h <= self.map_w
        &&& self.map_w <= MAP_DIM_MAX
        &&& self.world_map.len() == self.map_w * self.map_h
        &&& 0 <= self.position.x as int <= (self.map_w as int) * (FP_ONE as int)
        &&& 0 <= self.position.y as int <= (self.map_h as int) * (FP_ONE as int)
        &&& norm2(self.direction) <= (FP_ONE as int) * (FP_ONE as int)
        &&& norm2(self.camera_plane) <= (FP_ONE as int) * (FP_ONE as int)
    }

    /// The state [`Renderer::new`] builds: camera two tiles into the map,
    /// facing `(-1, 0)`, with the default field of view.
    pub open spec fn initial(world_map: Vec<u32>, map_x: usize, map_y: usize) -> Renderer {
        Renderer {
            world_map,
            map_w: map_x,
            map_h: map_y,
            position: Vec2 { x: START_POS, y: START_POS },
            direction: Vec2 { x: DIR_X_INIT, y: 0 },
            camera_plane: Vec2 { x: 0, y: PLANE_Y_INIT },
        }
    }

    /// Builds a renderer over the flat `map_x · map_y` grid `world_map`.
    /// The caller guarantees plausible dimensions; [`Renderer::try_new`]
    /// checks them instead.
    pub fn new(world_map: Vec<u32>, map_x: usize, map_y: usize) -> (r: Renderer)
        requires
            2 <= map_y as int,
            map_y <= map_x,
            map_x <= MAP_DIM_MAX,
            world_map.len() == map_x * map_y,
        ensures
            r == Renderer::initial(world_map, map_x, map_y),
            r.wf(),
    {
        let r = Renderer {
            world_map,
            map_w: map_x,
            map_h: map_y,
            position: Vec2 { x: START_POS, y: START_POS },
            direction: Vec2 { x: DIR_X_INIT, y: 0 },
            camera_plane: Vec2 { x: 0, y: PLANE_Y_INIT },
        };
        proof {
            assert(131072 <= (map_x as int) * 65536) by (nonlinear_arith)
                requires
                    2 <= map_x as int,
            ;
            assert(131072 <= (map_y as int) * 65536) by (nonlinear_arith)
                requires
                    2 <= map_y as int,
            ;
            assert(FP_ONE as int == 65536);
            assert(DIR_X_INIT as int == -65536);
            assert(PLANE_Y_INIT as int == 43254);
            assert((-65536) * (-65536) + 0 * 0 <= 65536 * 65536) by (nonlinear_arith);
            assert(0 * 0 + 43254 * 43254 <= 65536 * 65536) by (nonlinear_arith);
            assert(norm2(r.direction) == (-65536) * (-65536) + 0 * 0);
            assert(norm2(r.camera_plane) == 0 * 0 + 43254 * 43254);
        }
        r
    }

    /// Validating constructor: `None` exactly when the dimensions are out of
    /// range, inconsistent with each other, or do not match the flat map.
    pub fn try_new(world_map: Vec<u32>, map_x: usize, map_y: usize) -> (r: Option<Renderer>)
        ensures
            r is Some <==> (2 <= map_y as int && map_y <= map_x && map_x <= MAP_DIM_MAX
                && world_map.len() == map_x * map_y),
            r is Some ==> r->0 == Renderer::initial(world_map, map_x, map_y),
            r is Some ==> r->0.wf(),
    {
        if map_y < 2 || map_y > map_x || map_x > MAP_DIM_MAX {
            return None;
        }
        proof {
            assert(0 <= (map_x as int) * (map_y as int) <= 4096 * 4096) by (nonlinear_arith)
                requires
                    0 <= map_y as int <= map_x as int <= 4096,
            ;
        }
        if world_map.len() != map_x * map_y {
            return None;
        }
        Some(Renderer::new(world_map, map_x, map_y))
    }

    /// The state after [`Renderer::set_position`]: each axis clamped
    /// independently into `[0, map dimension]`.
    pub open spec fn set_position_v(r: Renderer, p: Vec2) -> Renderer {
        Renderer {
            position: Vec2 {
                x: clamp_v(p.x as int, 0, (r.map_w as int) * (FP_ONE as int)) as i64,
                y: clamp_v(p.y as int, 0, (r.map_h as int) * (FP_ONE as int)) as i64,
            },
            ..r
        }
    }

    /// Clamps `position` to the map rectangle and commits it; nothing else
    /// changes. There is no error condition: the camera slides along the
    /// boundary instead of leaving the map.
    pub fn set_position(&mut self, position: Vec2)
        requires
            old(self).wf(),
        ensures
            *final(self) == Renderer::set_position_v(*old(self), position),
            final(self).wf(),
    {
        let x_max: i64 = (self.map_w as i64) * FP_ONE;
        let y_max: i64 = (self.map_h as i64) * FP_ONE;
        let x: i64 = if position.x < 0 {
            0
        } else if position.x > x_max {
            x_max
        } else {
            position.x
        };
        let y: i64 = if position.y < 0 {
            0
        } else if position.y > y_max {
            y_max
        } else {
            position.y
        };
        self.position = Vec2 { x, y };
    }

    /// The state after [`Renderer::add_position`]: the position moved by
    /// `speed · direction` (fixed-point product, rounded toward zero) and
    /// then clamped as by [`Renderer::set_position`].
    pub open spec fn add_position_v(r: Renderer, speed: int) -> Renderer {
        Renderer::set_position_v(
            r,
            Vec2 {
                x: (r.position.x as int + fmul_v(speed, r.direction.x as int)) as i64,
                y: (r.position.y as int + fmul_v(speed, r.direction.y as int)) as i64,
            },
        )
    }

    /// Moves the camera `speed` units along its facing direction (backward
    /// for negative `speed`), silently clamping at the map boundary.
    pub fn add_position(&mut self, speed: i64)
        requires
            old(self).wf(),
            -SPEED_MAX as int <= speed as int <= SPEED_MAX as int,
        ensures
            *final(self) == Renderer::add_position_v(*old(self), speed as int),
            final(self).wf(),
    {
        proof {
            lemma_dir_components_bounded(*self);
            lemma_quant_shrinks(speed as int * self.direction.x as int);
            lemma_quant_shrinks(speed as int * self.direction.y as int);
            assert(iabs(speed as int * self.direction.x as int) <= SPEED_MAX as int * FP_ONE as int)
                by (nonlinear_arith)
                requires
                    iabs(self.direction.x as int) <= FP_ONE as int,
                    iabs(speed as int) <= SPEED_MAX as int,
            ;
            assert(iabs(speed as int * self.direction.y as int) <= SPEED_MAX as int * FP_ONE as int)
                by (nonlinear_arith)
                requires
                    iabs(self.direction.y as int) <= FP_ONE as int,
                    iabs(speed as int) <= SPEED_MAX as int,
            ;
        }
        let dx: i64 = quantize(speed * self.direction.x);
        let dy: i64 = quantize(speed * self.direction.y);
        let target = Vec2 { x: self.position.x + dx, y: self.position.y + dy };
        self.set_position(target);
    }
}

/// The state after [`Renderer::add_rotation`]: direction and camera plane
/// each rotated by the same rotation, both computed from the snapshot taken
/// before either is replaced, each coordinate rescaled toward zero.
pub open spec fn add_rotation_v(r: Renderer, rot: Rotation) -> Renderer {
    Renderer {
        direction: Vec2 {
            x: quant(
                rot_x(r.direction.x as int, r.direction.y as int, rot.c as int, rot.s as int),
            ) as i64,
            y: quant(
                rot_y(r.direction.x as int, r.direction.y as int, rot.c as int, rot.s as int),
            ) as i64,
        },
        camera_plane: Vec2 {
            x: quant(
                rot_x(
                    r.camera_plane.x as int,
                    r.camera_plane.y as int,
                    rot.c as int,
                    rot.s as int,
                ),
            ) as i64,
            y: quant(
                rot_y(
                    r.camera_plane.x as int,
                    r.camera_plane.y as int,
                    rot.c as int,
                    rot.s as int,
                ),
            ) as i64,
        },
        ..r
    }
}

impl Renderer {
    /// Rotates the facing direction and the camera plane together by `rot`,
    /// using the standard 2D rotation matrix on each vector independently;
    /// both rotations read the pre-rotation snapshot. The position and the
    /// map do not change.
    pub fn add_rotation(&mut self, rot: Rotation)
        requires
            old(self).wf(),
            rot.wf(),
        ensures
            *final(self) == add_rotation_v(*old(self), rot),
            final(self).wf(),
    {
        proof {
            lemma_dir_components_bounded(*self);
            lemma_rot_components_bounded(rot);
            lemma_rotated_products_small(*self, rot);
        }
        let d = self.direction;
        let p = self.camera_plane;
        let ndx: i64 = quantize(d.x * rot.c - d.y * rot.s);
        let ndy: i64 = quantize(d.x * rot.s + d.y * rot.c);
        let npx: i64 = quantize(p.x * rot.c - p.y * rot.s);
        let npy: i64 = quantize(p.x * rot.s + p.y * rot.c);
        proof {
            lemma_rotated_norm_bounded(d.x as int, d.y as int, rot.c as int, rot.s as int);
            lemma_rotated_norm_bounded(p.x as int, p.y as int, rot.c as int, rot.s as int);
        }
        self.direction = Vec2 { x: ndx, y: ndy };
        self.camera_plane = Vec2 { x: npx, y: npy };
    }
}

/// A well-formed rotation has cosine and sine inside `[-FP_ONE, FP_ONE]`.
pub proof fn lemma_rot_components_bounded(rot: Rotation)
    requires
        rot.wf(),
    ensures
        iabs(rot.c as int) <= FP_ONE as int,
        iabs(rot.s as int) <= FP_ONE as int,
{
    assert(rot.c as int * rot.c as int <= (FP_ONE as int) * (FP_ONE as int)) by (nonlinear_arith)
        requires
            rot.c as int * rot.c as int + rot.s as int * rot.s as int <= (FP_ONE as int) * (
            FP_ONE as int),
    ;
    assert(rot.s as int * rot.s as int <= (FP_ONE as int) * (FP_ONE as int)) by (nonlinear_arith)
        requires
            rot.c as int * rot.c as int + rot.s as int * rot.s as int <= (FP_ONE as int) * (
            FP_ONE as int),
    ;
    lemma_sq_le_implies_le(rot.c as int, FP_ONE as int);
    lemma_sq_le_implies_le(rot.s as int, FP_ONE as int);
}

/// All four products feeding a rotation stay far inside the `i64` range.
proof fn lemma_rotated_products_small(r: Renderer, rot: Rotation)
    requires
        r.wf(),
        rot.wf(),
    ensures
        iabs(r.direction.x as int * rot.c as int) <= 0x1_0000_0000,
        iabs(r.direction.y as int * rot.s as int) <= 0x1_0000_0000,
        iabs(r.direction.x as int * rot.s as int) <= 0x1_0000_0000,
        iabs(r.direction.y as int * rot.c as int) <= 0x1_0000_0000,
        iabs(r.camera_plane.x as int * rot.c as int) <= 0x1_0000_0000,
        iabs(r.camera_plane.y as int * rot.s as int) <= 0x1_0000_0000,
        iabs(r.camera_plane.x as int * rot.s as int) <= 0x1_0000_0000,
        iabs(r.camera_plane.y as int * rot.c as int) <= 0x1_0000_0000,
{
    lemma_dir_components_bounded(r);
    lemma_rot_components_bounded(rot);
    assert forall|a: int, b: int|
        iabs(a) <= 65536 && iabs(b) <= 65536 implies #[trigger] iabs(a * b) <= 0x1_0000_0000 by {
        assert(-0x1_0000_0000 <= a * b <= 0x1_0000_0000) by (nonlinear_arith)
            requires
                -65536 <= a <= 65536,
                -65536 <= b <= 65536,
        ;
    }
}

/// A well-formed camera has both direction components inside `[-FP_ONE, FP_ONE]`.
pub proof fn lemma_dir_components_bounded(r: Renderer)
    requires
        r.wf(),
    ensures
        iabs(r.direction.x as int) <= FP_ONE as int,
        iabs(r.direction.y as int) <= FP_ONE as int,
        iabs(r.camera_plane.x as int) <= FP_ONE as int,
        iabs(r.camera_plane.y as int) <= FP_ONE as int,
{
    assert(r.direction.x as int * r.direction.x as int <= (FP_ONE as int) * (FP_ONE as int))
        by (nonlinear_arith)
        requires
            norm2(r.direction) <= (FP_ONE as int) * (FP_ONE as int),
    ;
    assert(r.direction.y as int * r.direction.y as int <= (FP_ONE as int) * (FP_ONE as int))
        by (nonlinear_arith)
        requires
            norm2(r.direction) <= (FP_ONE as int) * (FP_ONE as int),
    ;
    assert(r.camera_plane.x as int * r.camera_plane.x as int <= (FP_ONE as int) * (FP_ONE as int))
        by (nonlinear_arith)
        requires
            norm2(r.camera_plane) <= (FP_ONE as int) * (FP_ONE as int),
    ;
    assert(r.camera_plane.y as int * r.camera_plane.y as int <= (FP_ONE as int) * (FP_ONE as int))
        by (nonlinear_arith)
        requires
            norm2(r.camera_plane) <= (FP_ONE as int) * (FP_ONE as int),
    ;
    lemma_sq_le_implies_le(r.direction.x as int, FP_ONE as int);
    lemma_sq_le_implies_le(r.direction.y as int, FP_ONE as int);
    lemma_sq_le_implies_le(r.camera_plane.x as int, FP_ONE as int);
    lemma_sq_le_implies_le(r.camera_plane.y as int, FP_ONE as int);
}

} // verus!

verus! {

/// Background (floor and ceiling) color, red channel.
pub const BG_R: u8 = 0x30;

/// Background color, green channel.
pub const BG_G: u8 = 0x2c;

/// Background color, blue channel.
pub const BG_B: u8 = 0x2e;

/// A display color, one byte per channel.
#[derive(Clone, Copy, Debug, PartialEq, Eq, Structural)]
pub struct Rgba {
    pub r: u8,
    pub g: u8,
    pub b: u8,
    pub a: u8,
}

/// One column's wall slice: the color to draw and the vertical extent
/// (exclusive on both ends) of the wall on screen.
#[derive(Clone, Copy, Debug, PartialEq, Eq, Structural)]
pub struct ColumnSlice {
    pub color: Rgba,
    pub start: usize,
    pub end: usize,
}

/// The mathematical value of a column slice.
pub struct ColView {
    pub cr: int,
    pub cg: int,
    pub cb: int,
    pub ca: int,
    pub start: int,
    pub end: int,
}

/// Whether the executable slice carries exactly the mathematical one.
pub open spec fn slice_matches(l: ColumnSlice, c: ColView) -> bool {
    &&& l.color.r as int == c.cr
    &&& l.color.g as int == c.cg
    &&& l.color.b as int == c.cb
    &&& l.color.a as int == c.ca
    &&& l.start as int == c.start
    &&& l.end as int == c.end
}

/// The ray data of screen column `x` out of `sw`: the camera-space
/// coordinate is `camX = (2x - sw)/sw` and the ray direction is
/// `direction + camera_plane · camX`, kept as the exact integer numerators
/// over the common denominator `FP_ONE · sw`.
pub open spec fn column_ray(r: Renderer, sw: int, x: int) -> RaySetup {
    let fp = FP_ONE as int;
    let rxn = (r.direction.x as int) * sw + (r.camera_plane.x as int) * (2 * x - sw);
    let ryn = (r.direction.y as int) * sw + (r.camera_plane.y as int) * (2 * x - sw);
    let x0 = clamp_v((r.position.x as int) / fp, 0, r.map_w as int - 1);
    let y0 = clamp_v((r.position.y as int) / fp, 0, r.map_h as int - 1);
    RaySetup {
        map: r.world_map@,
        w: r.map_w as int,
        h: r.map_h as int,
        x0,
        y0,
        sx: if rxn < 0 { -1 } else { 1 },
        sy: if ryn < 0 { -1 } else { 1 },
        fx: if rxn < 0 {
            r.position.x as int - x0 * fp
        } else {
            (x0 + 1) * fp - r.position.x as int
        },
        fy: if ryn < 0 {
            r.position.y as int - y0 * fp
        } else {
            (y0 + 1) * fp - r.position.y as int
        },
        rx: iabs(rxn),
        ry: iabs(ryn),
    }
}

/// The fully projected slice of column `x`: traverse the grid, and on a hit
/// read the wall cell's color (coordinates defensively clamped into the
/// grid), darken the three high channels by `side + 1`, and project the
/// perpendicular wall distance `(f + (k-1)·FP_ONE)·sw / rn` into a vertical
/// extent around the screen center. A ray that escaped an unenclosed map
/// yields an empty slice (`start == end == 0`): the column shows background.
pub open spec fn column_slice(r: Renderer, sw: int, sh: int, x: int) -> ColView {
    let p = column_ray(r, sw, x);
    let e = ray_end(p);
    if !e.hit {
        ColView { cr: 0, cg: 0, cb: 0, ca: 0, start: 0, end: 0 }
    } else {
        let hx = clamp_v(p.x0 + p.sx * e.kx, 0, p.w - 1);
        let hy = clamp_v(p.y0 + p.sy * e.ky, 0, p.h - 1);
        let code = p.map[cell_index(hx, hy, p.h)];
        let sd = e.side + 1;
        let f = if e.side == 0 { p.fx } else { p.fy };
        let k = if e.side == 0 { e.kx } else { e.ky };
        let rn = if e.side == 0 { p.rx } else { p.ry };
        let pnum = (f + (k - 1) * (FP_ONE as int)) * sw;
        let lh = if pnum == 0 { sh } else { (sh * rn) / pnum };
        let st = if lh / 2 >= sh / 2 { 0 } else { sh / 2 - lh / 2 };
        let en = if sh / 2 + lh / 2 <= sh - 1 { sh / 2 + lh / 2 } else { sh - 1 };
        ColView {
            cr: ((code >> 24) as u8) as int / sd,
            cg: ((code >> 16) as u8) as int / sd,
            cb: ((code >> 8) as u8) as int / sd,
            ca: (code as u8) as int,
            start: st,
            end: en,
        }
    }
}

/// What the rasterizer leaves at pixel `(x, y)` for a column whose slice is
/// `c`: the wall color strictly inside `(start, end)`, the background color
/// everywhere else — rows exactly at `start` or `end` show background.
pub open spec fn pixel_ok(c: ColView, f: Seq<u8>, sw: int, x: int, y: int) -> bool {
    let i = 4 * (y * sw + x);
    if c.start < y && y < c.end {
        &&& f[i] as int == c.cr
        &&& f[i + 1] as int == c.cg
        &&& f[i + 2] as int == c.cb
        &&& f[i + 3] as int == c.ca
    } else {
        &&& f[i] == BG_R
        &&& f[i + 1] == BG_G
        &&& f[i + 2] == BG_B
        &&& f[i + 3] == 0xffu8
    }
}

/// The ray data of a column is well formed and its numerators are small.
pub proof fn lemma_column_ray_wf(r: Renderer, sw: int, x: int)
    requires
        r.wf(),
        1 <= sw <= 4096,
        0 <= x < sw,
    ensures
        column_ray(r, sw, x).wf(),
        column_ray(r, sw, x).rx <= 0x4000_0000,
        column_ray(r, sw, x).ry <= 0x4000_0000,
        column_ray(r, sw, x).fx + (column_ray(r, sw, x).w + column_ray(r, sw, x).h + 2) * (
        FP_ONE as int) <= 0x4000_0000,
        column_ray(r, sw, x).fy + (column_ray(r, sw, x).w + column_ray(r, sw, x).h + 2) * (
        FP_ONE as int) <= 0x4000_0000,
{
    let fp = FP_ONE as int;
    let p = column_ray(r, sw, x);
    lemma_dir_components_bounded(r);
    lemma_abs_mul_le(r.direction.x as int, sw, 65536, 4096);
    lemma_abs_mul_le(r.direction.y as int, sw, 65536, 4096);
    lemma_abs_mul_le(r.camera_plane.x as int, 2 * x - sw, 65536, 4096);
    lemma_abs_mul_le(r.camera_plane.y as int, 2 * x - sw, 65536, 4096);
    let px = r.position.x as int;
    let py = r.position.y as int;
    vstd::arithmetic::div_mod::lemma_fundamental_div_mod(px, fp);
    vstd::arithmetic::div_mod::lemma_mod_bound(px, fp);
    vstd::arithmetic::div_mod::lemma_fundamental_div_mod(py, fp);
    vstd::arithmetic::div_mod::lemma_mod_bound(py, fp);
    vstd::arithmetic::div_mod::lemma_div_is_ordered(0, px, fp);
    vstd::arithmetic::div_mod::lemma_div_is_ordered(0, py, fp);
    vstd::arithmetic::div_mod::lemma_div_is_ordered(px, (r.map_w as int) * fp, fp);
    vstd::arithmetic::div_mod::lemma_div_is_ordered(py, (r.map_h as int) * fp, fp);
    vstd::arithmetic::div_mod::lemma_div_by_multiple(r.map_w as int, fp);
    vstd::arithmetic::div_mod::lemma_div_by_multiple(r.map_h as int, fp);
    assert((r.map_w as int) * fp == fp * (r.map_w as int)) by (nonlinear_arith);
    assert((r.map_h as int) * fp == fp * (r.map_h as int)) by (nonlinear_arith);
    let qx = px / fp;
    let qy = py / fp;
    assert(0 <= qx <= r.map_w as int);
    assert(0 <= qy <= r.map_h as int);
    if qx > r.map_w as int - 1 {
        assert(qx == r.map_w as int);
        assert(qx * fp <= px);
        assert(px == (r.map_w as int) * fp);
    }
    if qy > r.map_h as int - 1 {
        assert(qy == r.map_h as int);
        assert(qy * fp <= py);
        assert(py == (r.map_h as int) * fp);
    }
    assert(p.x0 * fp <= px && px <= p.x0 * fp + fp);
    assert(p.y0 * fp <= py && py <= p.y0 * fp + fp);
    assert(2 <= p.h <= p.w <= 4096);
    assert((p.w + p.h + 2) * fp <= 8194 * 65536) by (nonlinear_arith)
        requires
            2 <= p.h <= p.w <= 4096,
            fp == 65536,
    ;
}

/// `|a·b| <= am·bm` from `|a| <= am`, `|b| <= bm`.
pub proof fn lemma_abs_mul_le(a: int, b: int, am: int, bm: int)
    requires
        iabs(a) <= am,
        iabs(b) <= bm,
    ensures
        iabs(a * b) <= am * bm,
{
    assert(-(am * bm) <= a * b <= am * bm) by (nonlinear_arith)
        requires
            -am <= a <= am,
            -bm <= b <= bm,
    ;
}

impl Renderer {
    /// Projects screen column `x` (of `sw` columns, on a screen `sh` rows
    /// high): casts the column's ray through the grid and returns the
    /// resulting wall slice, exactly as [`column_slice`] describes.
    pub fn cast_column(&self, sw: usize, sh: usize, x: usize) -> (l: ColumnSlice)
        requires
            self.wf(),
            1 <= sw <= 4096,
            1 <= sh <= 4096,
            x < sw,
        ensures
            slice_matches(l, column_slice(*self, sw as int, sh as int, x as int)),
    {
        proof {
            lemma_column_ray_wf(*self, sw as int, x as int);
            lemma_dir_components_bounded(*self);
        }
        let ghost p = column_ray(*self, sw as int, x as int);
        let fp64: i64 = FP_ONE;
        let swi: i64 = sw as i64;
        let xi: i64 = x as i64;
        proof {
            lemma_abs_mul_le(self.direction.x as int, sw as int, 65536, 4096);
            lemma_abs_mul_le(self.direction.y as int, sw as int, 65536, 4096);
            lemma_abs_mul_le(self.camera_plane.x as int, 2 * (x as int) - sw as int, 65536, 4096);
            lemma_abs_mul_le(self.camera_plane.y as int, 2 * (x as int) - sw as int, 65536, 4096);
        }
        let rxn: i64 = self.direction.x * swi + self.camera_plane.x * (2 * xi - swi);
        let ryn: i64 = self.direction.y * swi + self.camera_plane.y * (2 * xi - swi);
        let w64: i64 = self.map_w as i64;
        let h64: i64 = self.map_h as i64;
        let qx: i64 = ((self.position.x as u64) / (FP_ONE as u64)) as i64;
        let qy: i64 = ((self.position.y as u64) / (FP_ONE as u64)) as i64;
        let x0: i64 = if qx > w64 - 1 { w64 - 1 } else { qx };
        let y0: i64 = if qy > h64 - 1 { h64 - 1 } else { qy };
        let sx: i64 = if rxn < 0 { -1 } else { 1 };
        let sy: i64 = if ryn < 0 { -1 } else { 1 };
        let fx: i64 = if rxn < 0 { self.position.x - x0 * fp64 } else { (x0 + 1) * fp64 - self.position.x };
        let fy: i64 = if ryn < 0 { self.position.y - y0 * fp64 } else { (y0 + 1) * fp64 - self.position.y };
        let rxa: u64 = if rxn < 0 { (-rxn) as u64 } else { rxn as u64 };
        let rya: u64 = if ryn < 0 { (-ryn) as u64 } else { ryn as u64 };
        assert(rxa as int == p.rx && rya as int == p.ry);
        assert(x0 as int == p.x0 && y0 as int == p.y0);
        assert(fx as int == p.fx && fy as int == p.fy);
        assert(sx as int == p.sx && sy as int == p.sy);

        let mut kx: i64 = 0;
        let mut ky: i64 = 0;
        let mut side: u32 = 0;
        let mut hit: bool = false;
        let mut cx: i64 = x0;
        let mut cy: i64 = y0;
        let mut fuel: i64 = w64 + h64 + 2;
        loop
            invariant_except_break
                !hit,
                dda(p, kx as int, ky as int, side as int, fuel as nat) == ray_end(p),
                kx + ky + fuel == p.w + p.h + 2,
            invariant
                p == column_ray(*self, sw as int, x as int),
                p.wf(),
                self.wf(),
                1 <= sw <= 4096,
                fp64 == FP_ONE,
                w64 as int == p.w,
                h64 as int == p.h,
                rxa as int == p.rx,
                rya as int == p.ry,
                fx as int == p.fx,
                fy as int == p.fy,
                sx as int == p.sx,
                sy as int == p.sy,
                x0 as int == p.x0,
                y0 as int == p.y0,
                p.rx <= 0x4000_0000,
                p.ry <= 0x4000_0000,
                p.fx + (p.w + p.h + 2) * (FP_ONE as int) <= 0x4000_0000,
                p.fy + (p.w + p.h + 2) * (FP_ONE as int) <= 0x4000_0000,
                0 <= kx,
                0 <= ky,
                0 <= fuel,
                kx + ky <= p.w + p.h + 2,
                cx as int == p.x0 + p.sx * (kx as int),
                cy as int == p.y0 + p.sy * (ky as int),
                0 <= (cx as int) < p.w,
                0 <= (cy as int) < p.h,
                side == 0 || side == 1,
                side == 0 ==> kx >= 1 || (kx == 0 && ky == 0),
                side == 1 ==> ky >= 1,
            ensures
                (RayEnd {
                    kx: kx as int,
                    ky: ky as int,
                    side: side as int,
                    hit,
                }) == ray_end(p),
                cx as int == p.x0 + p.sx * (kx as int),
                cy as int == p.y0 + p.sy * (ky as int),
                0 <= (cx as int) < p.w,
                0 <= (cy as int) < p.h,
                side == 0 || side == 1,
                hit && side == 0 ==> kx >= 1,
                hit && side == 1 ==> ky >= 1,
                0 <= kx,
                0 <= ky,
                kx + ky <= p.w + p.h + 2,
            decreases fuel,
        {
            if fuel == 0 {
                break ;
            }
            let sdx: i64 = fx + kx * fp64;
            let sdy: i64 = fy + ky * fp64;
            proof {
                assert(0 <= (sdx as int) * p.ry <= 0x4000_0000 * 0x4000_0000) by (nonlinear_arith)
                    requires
                        0 <= sdx as int <= 0x4000_0000,
                        0 <= p.ry <= 0x4000_0000,
                ;
                assert(0 <= (sdy as int) * p.rx <= 0x4000_0000 * 0x4000_0000) by (nonlinear_arith)
                    requires
                        0 <= sdy as int <= 0x4000_0000,
                        0 <= p.rx <= 0x4000_0000,
                ;
            }
            let lhs: u128 = (sdx as u128) * (rya as u128);
            let rhs: u128 = (sdy as u128) * (rxa as u128);
            let go_x: bool = lhs < rhs;
            assert(go_x == advances_x(p, kx as int, ky as int));
            proof {
                assert(p.sx * (kx as int + 1) == p.sx * (kx as int) + p.sx) by (nonlinear_arith);
                assert(p.sy * (ky as int + 1) == p.sy * (ky as int) + p.sy) by (nonlinear_arith);
            }
            if go_x {
                let nx: i64 = cx + sx;
                if nx < 0 || nx >= w64 {
                    assert(ray_end(p) == (RayEnd {
                        kx: kx as int,
                        ky: ky as int,
                        side: side as int,
                        hit: false,
                    }));
                    break ;
                }
                proof {
                    lemma_cell_index_in_range(nx as int, cy as int, p.w, p.h);
                }
                let idx: usize = (nx as usize) + (cy as usize) * self.map_h;
                let solid: bool = self.world_map[idx] > 0;
                cx = nx;
                kx = kx + 1;
                side = 0;
                if solid {
                    hit = true;
                    assert(ray_end(p) == (RayEnd {
                        kx: kx as int,
                        ky: ky as int,
                        side: 0,
                        hit: true,
                    }));
                    break ;
                }
            } else {
                let ny: i64 = cy + sy;
                if ny < 0 || ny >= h64 {
                    assert(ray_end(p) == (RayEnd {
                        kx: kx as int,
                        ky: ky as int,
                        side: side as int,
                        hit: false,
                    }));
                    break ;
                }
                proof {
                    lemma_cell_index_in_range(cx as int, ny as int, p.w, p.h);
                }
                let idx: usize = (cx as usize) + (ny as usize) * self.map_h;
                let solid: bool = self.world_map[idx] > 0;
                cy = ny;
                ky = ky + 1;
                side = 1;
                if solid {
                    hit = true;
                    assert(ray_end(p) == (RayEnd {
                        kx: kx as int,
                        ky: ky as int,
                        side: 1,
                        hit: true,
                    }));
                    break ;
                }
            }
            fuel = fuel - 1;
        }

        if !hit {
            return ColumnSlice { color: Rgba { r: 0, g: 0, b: 0, a: 0 }, start: 0, end: 0 };
        }
        let ghost e = ray_end(p);
        assert(e.hit && e.kx == kx as int && e.ky == ky as int && e.side == side as int);
        let hx: i64 = if cx < 0 { 0 } else if cx > w64 - 1 { w64 - 1 } else { cx };
        let hy: i64 = if cy < 0 { 0 } else if cy > h64 - 1 { h64 - 1 } else { cy };
        proof {
            lemma_cell_index_in_range(hx as int, hy as int, p.w, p.h);
        }
        let code: u32 = self.world_map[(hx as usize) + (hy as usize) * self.map_h];
        let d8: u8 = (side as u8) + 1;
        let cr: u8 = ((code >> 24) as u8) / d8;
        let cg: u8 = ((code >> 16) as u8) / d8;
        let cb: u8 = ((code >> 8) as u8) / d8;
        let ca: u8 = code as u8;
        let f_hit: i64 = if side == 0 { fx } else { fy };
        let k_hit: i64 = if side == 0 { kx } else { ky };
        let rn: u64 = if side == 0 { rxa } else { rya };
        proof {
            assert(0 <= f_hit as int + (k_hit as int - 1) * 65536 <= 0x4000_0000);
            assert(0 <= (f_hit as int + (k_hit as int - 1) * 65536) * (swi as int) <= 0x4000_0000
                * 4096) by (nonlinear_arith)
                requires
                    0 <= f_hit as int + (k_hit as int - 1) * 65536 <= 0x4000_0000,
                    1 <= swi as int <= 4096,
            ;
        }
        let pnum: i64 = (f_hit + (k_hit - 1) * fp64) * swi;
        proof {
            assert(0 <= (sh as int) * (rn as int) <= 4096 * 0x4000_0000) by (nonlinear_arith)
                requires
                    0 <= sh as int <= 4096,
                    0 <= rn as int <= 0x4000_0000,
            ;
        }
        let lh: u64 = if pnum == 0 {
            sh as u64
        } else {
            ((sh as u64) * rn) / (pnum as u64)
        };
        let half: u64 = (sh as u64) / 2;
        let lh2: u64 = lh / 2;
        let start: usize = if lh2 >= half {
            0
        } else {
            (half - lh2) as usize
        };
        let endv: u64 = half + lh2;
        let end: usize = if endv <= (sh as u64) - 1 {
            endv as usize
        } else {
            sh - 1
        };
        ColumnSlice { color: Rgba { r: cr, g: cg, b: cb, a: ca }, start, end }
    }
}

} // verus!

verus! {

/// Pixel `j` (row-major) is correct for the frame `f`.
pub open spec fn pixel_row_ok(r: Renderer, f: Seq<u8>, sw: int, sh: int, j: int) -> bool {
    pixel_ok(column_slice(r, sw, sh, j % sw), f, sw, j % sw, j / sw)
}

impl Renderer {
    /// Renders one whole frame of `sw × sh` pixels into `frame` (4 bytes per
    /// pixel, row-major): each column is projected by [`Renderer::cast_column`]
    /// and every pixel receives its column's wall color strictly inside the
    /// slice and the background color elsewhere, as [`pixel_ok`] states.
    pub fn render_frame(&self, frame: &mut Vec<u8>, sw: usize, sh: usize)
        requires
            self.wf(),
            1 <= sw <= 4096,
            1 <= sh <= 4096,
            old(frame).len() == 4 * sw * sh,
        ensures
            final(frame).len() == old(frame).len(),
            forall|x: int, y: int|
                0 <= x < sw && 0 <= y < sh ==> pixel_ok(
                    column_slice(*self, sw as int, sh as int, x),
                    final(frame)@,
                    sw as int,
                    x,
                    y,
                ),
    {
        proof {
            assert(0 <= (sw as int) * (sh as int) <= 4096 * 4096) by (nonlinear_arith)
                requires
                    1 <= sw as int <= 4096,
                    1 <= sh as int <= 4096,
            ;
            assert((4 * (sw as int)) * (sh as int) == 4 * ((sw as int) * (sh as int)))
                by (nonlinear_arith);
        }
        let mut lines: Vec<ColumnSlice> = Vec::new();
        let mut x: usize = 0;
        while x < sw
            invariant
                self.wf(),
                1 <= sw <= 4096,
                1 <= sh <= 4096,
                x <= sw,
                lines@.len() == x as int,
                forall|j: int|
                    0 <= j < x as int ==> slice_matches(
                        lines@[j],
                        column_slice(*self, sw as int, sh as int, j),
                    ),
            decreases sw - x,
        {
            lines.push(self.cast_column(sw, sh, x));
            x = x + 1;
        }
        let total: usize = sw * sh;
        let mut i: usize = 0;
        while i < total
            invariant
                self.wf(),
                1 <= sw <= 4096,
                1 <= sh <= 4096,
                total as int == (sw as int) * (sh as int),
                total <= 4096 * 4096,
                i <= total,
                frame.len() == 4 * total,
                frame.len() == old(frame).len(),
                lines@.len() == sw as int,
                forall|j: int|
                    0 <= j < sw as int ==> slice_matches(
                        lines@[j],
                        column_slice(*self, sw as int, sh as int, j),
                    ),
                forall|j: int|
                    0 <= j < i as int ==> pixel_row_ok(*self, frame@, sw as int, sh as int, j),
            decreases total - i,
        {
            let ghost pre = frame@;
            let x_col: usize = i % sw;
            let y_row: usize = i / sw;
            let l: ColumnSlice = lines[x_col];
            let wall: bool = y_row > l.start && y_row < l.end;
            if wall {
                frame[4 * i] = l.color.r;
                frame[4 * i + 1] = l.color.g;
                frame[4 * i + 2] = l.color.b;
                frame[4 * i + 3] = l.color.a;
            } else {
                frame[4 * i] = BG_R;
                frame[4 * i + 1] = BG_G;
                frame[4 * i + 2] = BG_B;
                frame[4 * i + 3] = 0xff;
            }
            proof {
                vstd::arithmetic::div_mod::lemma_fundamental_div_mod(i as int, sw as int);
                vstd::arithmetic::div_mod::lemma_mod_bound(i as int, sw as int);
                vstd::arithmetic::div_mod::lemma_div_is_ordered(i as int, total as int, sw as int);
                assert((i as int) * 4 + 3 < 4 * total);
                assert((i as int) / (sw as int) * (sw as int) == (sw as int) * ((i as int) / (
                sw as int))) by (nonlinear_arith);
                assert(4 * ((i as int) / (sw as int) * (sw as int) + (i as int) % (sw as int)) == 4
                    * (i as int));
                assert forall|j: int|
                    0 <= j < i as int + 1 implies pixel_row_ok(
                    *self,
                    frame@,
                    sw as int,
                    sh as int,
                    j,
                ) by {
                    vstd::arithmetic::div_mod::lemma_fundamental_div_mod(j, sw as int);
                    vstd::arithmetic::div_mod::lemma_mod_bound(j, sw as int);
                    assert(j / (sw as int) * (sw as int) == (sw as int) * (j / (sw as int)))
                        by (nonlinear_arith);
                    if j < i as int {
                        assert(pixel_row_ok(*self, pre, sw as int, sh as int, j));
                        assert(4 * (j / (sw as int) * (sw as int) + j % (sw as int)) == 4 * j);
                        assert(frame@[4 * j] == pre[4 * j]);
                        assert(frame@[4 * j + 1] == pre[4 * j + 1]);
                        assert(frame@[4 * j + 2] == pre[4 * j + 2]);
                        assert(frame@[4 * j + 3] == pre[4 * j + 3]);
                    }
                }
            }
            i = i + 1;
        }
        proof {
            assert forall|xq: int, yq: int|
                0 <= xq < sw && 0 <= yq < sh implies pixel_ok(
                column_slice(*self, sw as int, sh as int, xq),
                frame@,
                sw as int,
                xq,
                yq,
            ) by {
                let j = yq * (sw as int) + xq;
                assert(0 <= j < total as int) by (nonlinear_arith)
                    requires
                        j == yq * (sw as int) + xq,
                        0 <= xq < sw as int,
                        0 <= yq < sh as int,
                        total as int == (sw as int) * (sh as int),
                ;
                vstd::arithmetic::div_mod::lemma_fundamental_div_mod_converse_div(
                    j,
                    sw as int,
                    yq,
                    xq,
                );
                vstd::arithmetic::div_mod::lemma_fundamental_div_mod_converse_mod(
                    j,
                    sw as int,
                    yq,
                    xq,
                );
                assert(j % (sw as int) == xq && j / (sw as int) == yq);
                assert(pixel_row_ok(*self, frame@, sw as int, sh as int, j));
            }
        }
    }

    /// Renders one frame at the logical resolution [`crate::WIDTH`] ×
    /// [`crate::HEIGHT`] into the caller-owned buffer `frame`. The camera
    /// state is read, never changed.
    pub fn render(&mut self, frame: &mut Vec<u8>)
        requires
            old(self).wf(),
            old(frame).len() == 4 * crate::WIDTH * crate::HEIGHT,
        ensures
            *final(self) == *old(self),
            final(frame).len() == old(frame).len(),
            forall|x: int, y: int|
                0 <= x < crate::WIDTH && 0 <= y < crate::HEIGHT ==> pixel_ok(
                    column_slice(*old(self), crate::WIDTH as int, crate::HEIGHT as int, x),
                    final(frame)@,
                    crate::WIDTH as int,
                    x,
                    y,
                ),
    {
        self.render_frame(frame, crate::WIDTH, crate::HEIGHT);
    }
}

} // verus!

verus! {

/// The big-endian 32-bit cell code starting at byte `4·i` of `b`.
pub open spec fn cell_code(b: Seq<u8>, i: int) -> int {
    (b[4 * i] as int) * 0x100_0000 + (b[4 * i + 1] as int) * 0x1_0000 + (b[4 * i + 2] as int)
        * 0x100 + (b[4 * i + 3] as int)
}

/// Flattens a decoded image into map cells: each consecutive 4-byte group
/// becomes one 32-bit big-endian cell code; a trailing group of fewer than
/// 4 bytes is dropped.
pub fn map_from_bytes(bytes: &Vec<u8>) -> (cells: Vec<u32>)
    ensures
        cells@.len() == bytes@.len() as int / 4,
        forall|i: int| 0 <= i < cells@.len() ==> cells@[i] as int == cell_code(bytes@, i),
{
    let n: usize = bytes.len() / 4;
    let mut cells: Vec<u32> = Vec::new();
    let mut i: usize = 0;
    while i < n
        invariant
            n == bytes@.len() / 4,
            bytes@.len() <= usize::MAX,
            i <= n,
            cells@.len() == i as int,
            forall|j: int| 0 <= j < i as int ==> cells@[j] as int == cell_code(bytes@, j),
        decreases n - i,
    {
        proof {
            assert(4 * (i as int) + 3 < bytes@.len()) by {
                vstd::arithmetic::div_mod::lemma_fundamental_div_mod(bytes@.len() as int, 4);
                vstd::arithmetic::div_mod::lemma_mod_bound(bytes@.len() as int, 4);
            }
        }
        let b0: u32 = bytes[4 * i] as u32;
        let b1: u32 = bytes[4 * i + 1] as u32;
        let b2: u32 = bytes[4 * i + 2] as u32;
        let b3: u32 = bytes[4 * i + 3] as u32;
        let code: u32 = b0 * 0x100_0000 + b1 * 0x1_0000 + b2 * 0x100 + b3;
        cells.push(code);
        i = i + 1;
    }
    cells
}

/// A movement step of any magnitude and any facing leaves the camera inside
/// the map rectangle `[0, map_w] × [0, map_h]`: the clamp of
/// [`Renderer::set_position`] is the last word on every path.
pub proof fn lemma_add_position_stays_in_map(r: Renderer, speed: int)
    requires
        r.wf(),
    ensures
        0 <= Renderer::add_position_v(r, speed).position.x as int <= (r.map_w as int) * (
        FP_ONE as int),
        0 <= Renderer::add_position_v(r, speed).position.y as int <= (r.map_h as int) * (
        FP_ONE as int),
{
}

/// The rasterization bound is exclusive on both ends: the pixel row exactly
/// at a slice's `start` and the row exactly at its `end` always show the
/// background color, never the wall color.
pub proof fn lemma_seam_rows_background(c: ColView, f: Seq<u8>, sw: int, x: int, y: int)
    requires
        pixel_ok(c, f, sw, x, y),
        y == c.start || y == c.end,
    ensures
        f[4 * (y * sw + x)] == BG_R,
        f[4 * (y * sw + x) + 1] == BG_G,
        f[4 * (y * sw + x) + 2] == BG_B,
        f[4 * (y * sw + x) + 3] == 0xffu8,
{
}

} // verus!

verus! {

/// Directional shading law: a column whose ray stopped on an x-facing
/// boundary (`side == 0`) shows the wall cell's three high channels
/// unshaded, one that stopped on a y-facing boundary (`side == 1`) shows
/// each of them divided by two, and the low (alpha) byte passes through
/// unshaded either way.
pub proof fn lemma_side_shading(r: Renderer, sw: int, sh: int, x: int)
    requires
        ray_end(column_ray(r, sw, x)).hit,
    ensures
        ({
            let p = column_ray(r, sw, x);
            let e = ray_end(p);
            let code = p.map[cell_index(
                clamp_v(p.x0 + p.sx * e.kx, 0, p.w - 1),
                clamp_v(p.y0 + p.sy * e.ky, 0, p.h - 1),
                p.h,
            )];
            let c = column_slice(r, sw, sh, x);
            &&& e.side == 0 ==> c.cr == ((code >> 24) as u8) as int && c.cg == ((code >> 16) as u8)
                as int && c.cb == ((code >> 8) as u8) as int
            &&& e.side == 1 ==> c.cr == ((code >> 24) as u8) as int / 2 && c.cg == ((code
                >> 16) as u8) as int / 2 && c.cb == ((code >> 8) as u8) as int / 2
            &&& c.ca == (code as u8) as int
        }),
{
    let p = column_ray(r, sw, x);
    let e = ray_end(p);
    let code = p.map[cell_index(
        clamp_v(p.x0 + p.sx * e.kx, 0, p.w - 1),
        clamp_v(p.y0 + p.sy * e.ky, 0, p.h - 1),
        p.h,
    )];
    vstd::arithmetic::div_mod::lemma_div_basics(((code >> 24) as u8) as int);
    vstd::arithmetic::div_mod::lemma_div_basics(((code >> 16) as u8) as int);
    vstd::arithmetic::div_mod::lemma_div_basics(((code >> 8) as u8) as int);
}

} // verus!

verus! {

/// Movement step per logic tick: 0.08 units in fixed point.
pub const MOVE_STEP: i64 = 5243;

/// Cosine of the per-tick rotation angle (0.05 radians), in fixed point,
/// truncated toward zero so the rotation never expands vectors.
pub const ROT_STEP_COS: i64 = 65454;

/// Sine of the per-tick rotation angle, in fixed point, truncated toward zero.
pub const ROT_STEP_SIN: i64 = 3275;

/// Negated [`ROT_STEP_SIN`], for the clockwise per-tick rotation.
pub const ROT_STEP_SIN_NEG: i64 = -3275;

/// The state after one logic tick: the held commands applied in the fixed
/// order move-forward, move-backward, rotate-left, rotate-right.
pub open spec fn input_stepped(
    r: Renderer,
    forward: bool,
    backward: bool,
    left: bool,
    right: bool,
) -> Renderer {
    let r1 = if forward {
        Renderer::add_position_v(r, MOVE_STEP as int)
    } else {
        r
    };
    let r2 = if backward {
        Renderer::add_position_v(r1, -(MOVE_STEP as int))
    } else {
        r1
    };
    let r3 = if left {
        add_rotation_v(r2, Rotation { c: ROT_STEP_COS, s: ROT_STEP_SIN })
    } else {
        r2
    };
    if right {
        add_rotation_v(r3, Rotation { c: ROT_STEP_COS, s: ROT_STEP_SIN_NEG })
    } else {
        r3
    }
}

impl Renderer {
    /// Applies one logic tick's held commands: forward and backward move by
    /// 0.08 units along the facing direction, rotate-left and rotate-right
    /// turn by 0.05 radians counter-clockwise and clockwise. Several
    /// commands may be held at once; they apply in a fixed order.
    pub fn apply_input(&mut self, forward: bool, backward: bool, left: bool, right: bool)
        requires
            old(self).wf(),
        ensures
            *final(self) == input_stepped(*old(self), forward, backward, left, right),
            final(self).wf(),
    {
        proof {
            assert(65454 * 65454 + 3275 * 3275 <= 65536 * 65536) by (nonlinear_arith);
            assert((-3275) * (-3275) == 3275 * 3275) by (nonlinear_arith);
        }
        if forward {
            self.add_position(MOVE_STEP);
        }
        if backward {
            self.add_position(-MOVE_STEP);
        }
        if left {
            self.add_rotation(Rotation { c: ROT_STEP_COS, s: ROT_STEP_SIN });
        }
        if right {
            self.add_rotation(Rotation { c: ROT_STEP_COS, s: ROT_STEP_SIN_NEG });
        }
    }
}

} // verus!
