//! Exact fixed-point arithmetic for the camera model.
//!
//! Continuous quantities (positions, direction vectors, cosines) are stored
//! as `i64` counts of `1/FP_ONE` units. All operations on them are exact
//! integer arithmetic; a product of two fixed-point numbers is rescaled by a
//! division that rounds toward zero, which plays the role floating-point
//! rounding plays in a conventional implementation.

use vstd::prelude::*;

verus! {

/// The fixed-point representation of 1.0: all continuous quantities are
/// integer multiples of `1/FP_ONE`.
pub const FP_ONE: i64 = 65536;

/// Absolute value of a mathematical integer.
pub open spec fn iabs(v: int) -> int {
    if v < 0 {
        -v
    } else {
        v
    }
}

/// Rescale an intermediate product by `FP_ONE`, rounding toward zero.
pub open spec fn quant(v: int) -> int {
    if v >= 0 {
        v / (FP_ONE as int)
    } else {
        -((-v) / (FP_ONE as int))
    }
}

/// Product of two fixed-point numbers, as a fixed-point number
/// (rounded toward zero).
pub open spec fn fmul_v(a: int, b: int) -> int {
    quant(a * b)
}

/// `v` clamped into `[lo, hi]`.
pub open spec fn clamp_v(v: int, lo: int, hi: int) -> int {
    if v < lo {
        lo
    } else if v > hi {
        hi
    } else {
        v
    }
}

/// First coordinate of `(vx, vy)` rotated by the angle whose cosine and sine
/// are `c/FP_ONE` and `s/FP_ONE`; the result is scaled by `FP_ONE` (it still
/// carries the factor introduced by the products).
pub open spec fn rot_x(vx: int, vy: int, c: int, s: int) -> int {
    vx * c - vy * s
}

/// Second coordinate of the rotated vector, scaled like [`rot_x`].
pub open spec fn rot_y(vx: int, vy: int, c: int, s: int) -> int {
    vx * s + vy * c
}

/// A 2D vector in fixed-point coordinates.
#[derive(Clone, Copy, Debug, PartialEq, Eq, Structural)]
pub struct Vec2 {
    pub x: i64,
    pub y: i64,
}

/// Squared Euclidean norm of a fixed-point vector, as a mathematical integer.
pub open spec fn norm2(v: Vec2) -> int {
    (v.x as int) * (v.x as int) + (v.y as int) * (v.y as int)
}

/// A rotation, given by the fixed-point cosine and sine of its angle.
///
/// Valid rotations satisfy `c² + s² ≤ FP_ONE²` (they never expand a vector);
/// truncating `cos θ · FP_ONE` and `sin θ · FP_ONE` toward zero always yields
/// a valid rotation. Construct through [`Rotation::new`].
#[derive(Clone, Copy, Debug, PartialEq, Eq, Structural)]
pub struct Rotation {
    pub c: i64,
    pub s: i64,
}

impl Rotation {
    /// A rotation is well formed when it does not expand vectors.
    pub open spec fn wf(self) -> bool {
        (self.c as int) * (self.c as int) + (self.s as int) * (self.s as int) <= (FP_ONE as int)
            * (FP_ONE as int)
    }

    /// Builds a rotation from a fixed-point cosine and sine, rejecting pairs
    /// that would expand vectors.
    pub fn new(c: i64, s: i64) -> (r: Option<Rotation>)
        ensures
            r is Some <==> (c as int) * (c as int) + (s as int) * (s as int) <= (FP_ONE as int) * (
            FP_ONE as int),
            r is Some ==> (r->0 == Rotation { c, s } && r->0.wf()),
    {
        if c > FP_ONE || c < -FP_ONE || s > FP_ONE || s < -FP_ONE {
            proof {
                lemma_out_of_range_expands(c as int, s as int);
            }
            return None;
        }
        proof {
            assert(0 <= c as int * c as int <= 65536 * 65536 && 0 <= s as int * s as int <= 65536
                * 65536) by (nonlinear_arith)
                requires
                    -65536 <= c as int <= 65536,
                    -65536 <= s as int <= 65536,
            ;
        }
        if c * c + s * s <= FP_ONE * FP_ONE {
            Some(Rotation { c, s })
        } else {
            None
        }
    }

    /// The rotation by the opposite angle.
    pub fn inverse(self) -> (r: Rotation)
        requires
            self.wf(),
        ensures
            r.c == self.c,
            r.s as int == -(self.s as int),
            r.wf(),
    {
        proof {
            assert(self.s as int * self.s as int <= (FP_ONE as int) * (FP_ONE as int))
                by (nonlinear_arith)
                requires
                    self.c as int * self.c as int + self.s as int * self.s as int <= (
                    FP_ONE as int) * (FP_ONE as int),
            ;
            lemma_sq_le_implies_le(self.s as int, FP_ONE as int);
            assert((-(self.s as int)) * (-(self.s as int)) == self.s as int * self.s as int)
                by (nonlinear_arith);
        }
        Rotation { c: self.c, s: -self.s }
    }
}

/// If a coordinate exceeds `FP_ONE` in magnitude, the pair expands vectors.
proof fn lemma_out_of_range_expands(c: int, s: int)
    requires
        iabs(c) > FP_ONE as int || iabs(s) > FP_ONE as int,
    ensures
        c * c + s * s > (FP_ONE as int) * (FP_ONE as int),
{
    assert(c * c + s * s > 65536 * 65536) by (nonlinear_arith)
        requires
            c > 65536 || c < -65536 || s > 65536 || s < -65536,
    ;
}

/// A square bound gives a magnitude bound.
pub proof fn lemma_sq_le_implies_le(a: int, b: int)
    requires
        a * a <= b * b,
        0 <= b,
    ensures
        -b <= a <= b,
{
    assert(-b <= a <= b) by (nonlinear_arith)
        requires
            a * a <= b * b,
            0 <= b,
    ;
}

/// Rescaling rounds toward zero: scaling the result back up never exceeds
/// the unscaled value's magnitude.
pub proof fn lemma_quant_shrinks(v: int)
    ensures
        iabs(quant(v)) * (FP_ONE as int) <= iabs(v),
        0 <= iabs(quant(v)),
        v >= 0 ==> quant(v) >= 0,
        v <= 0 ==> quant(v) <= 0,
{
    let d = FP_ONE as int;
    if v >= 0 {
        vstd::arithmetic::div_mod::lemma_fundamental_div_mod(v, d);
        vstd::arithmetic::div_mod::lemma_div_is_ordered(0, v, d);
        vstd::arithmetic::div_mod::lemma_mod_bound(v, d);
    } else {
        vstd::arithmetic::div_mod::lemma_fundamental_div_mod(-v, d);
        vstd::arithmetic::div_mod::lemma_div_is_ordered(0, -v, d);
        vstd::arithmetic::div_mod::lemma_mod_bound(-v, d);
    }
}

/// Rotation scales the squared norm by exactly `c² + s²`: the algebraic
/// identity `(xc − ys)² + (xs + yc)² == (x² + y²)(c² + s²)`.
pub proof fn lemma_rotation_norm(vx: int, vy: int, c: int, s: int)
    ensures
        rot_x(vx, vy, c, s) * rot_x(vx, vy, c, s) + rot_y(vx, vy, c, s) * rot_y(vx, vy, c, s) == (
        vx * vx + vy * vy) * (c * c + s * s),
{
    lemma_sq_diff(vx * c, vy * s);
    lemma_sq_sum(vx * s, vy * c);
    lemma_mul_swap(vx, c, vx, c);
    lemma_mul_swap(vy, s, vy, s);
    lemma_mul_swap(vx, s, vx, s);
    lemma_mul_swap(vy, c, vy, c);
    lemma_mul_swap(vx, c, vy, s);
    lemma_mul_swap(vx, s, vy, c);
    lemma_mul_comm(s, c);
    lemma_distrib2(vx * vx, vy * vy, c * c, s * s);
}

/// `(a - b)² == a² - 2ab + b²`.
proof fn lemma_sq_diff(a: int, b: int)
    ensures
        (a - b) * (a - b) == a * a - 2 * (a * b) + b * b,
{
    assert((a - b) * (a - b) == a * a - 2 * (a * b) + b * b) by (nonlinear_arith);
}

/// `(a + b)² == a² + 2ab + b²`.
proof fn lemma_sq_sum(a: int, b: int)
    ensures
        (a + b) * (a + b) == a * a + 2 * (a * b) + b * b,
{
    assert((a + b) * (a + b) == a * a + 2 * (a * b) + b * b) by (nonlinear_arith);
}

/// `(a - b)(m - n)` expanded.
proof fn lemma_mul_diff2(a: int, b: int, m: int, n: int)
    ensures
        (a - b) * (m - n) == a * m - a * n - b * m + b * n,
{
    assert((a - b) * (m - n) == a * m - a * n - b * m + b * n) by (nonlinear_arith);
}

/// Reassociation: `(x·y)(z·w) == (x·z)(y·w)`.
proof fn lemma_mul_swap(x: int, y: int, z: int, w: int)
    ensures
        (x * y) * (z * w) == (x * z) * (y * w),
{
    assert((x * y) * (z * w) == (x * z) * (y * w)) by (nonlinear_arith);
}

/// Commutativity of one product.
proof fn lemma_mul_comm(a: int, b: int)
    ensures
        a * b == b * a,
{
    assert(a * b == b * a) by (nonlinear_arith);
}

/// `(p + q)(m + n)` expanded.
proof fn lemma_distrib2(p: int, q: int, m: int, n: int)
    ensures
        (p + q) * (m + n) == p * m + p * n + q * m + q * n,
{
    assert((p + q) * (m + n) == p * m + p * n + q * m + q * n) by (nonlinear_arith);
}

/// Rotating by `(c, s)` and then by the inverse rotation `(c, -s)` scales a
/// vector by exactly `c² + s²`: for an exactly-unit rotation the round trip
/// is the identity, up to the `FP_ONE²` scale carried by the two unrescaled
/// applications.
#[verifier::rlimit(60)]
pub proof fn lemma_rotation_round_trip(vx: int, vy: int, c: int, s: int)
    ensures
        rot_x(rot_x(vx, vy, c, s), rot_y(vx, vy, c, s), c, -s) == vx * (c * c + s * s),
        rot_y(rot_x(vx, vy, c, s), rot_y(vx, vy, c, s), c, -s) == vy * (c * c + s * s),
{
    assert((vx * c - vy * s) * c - (vx * s + vy * c) * (-s) == vx * (c * c + s * s))
        by (nonlinear_arith);
    assert((vx * c - vy * s) * (-s) + (vx * s + vy * c) * c == vy * (c * c + s * s))
        by (nonlinear_arith);
}

/// Rotation scales every dot product by exactly `c² + s²`: for an
/// exactly-unit rotation the angle between two vectors — in particular the
/// field-of-view angle between the camera direction and the camera plane —
/// is invariant.
pub proof fn lemma_rotation_preserves_dot(ax: int, ay: int, bx: int, by: int, c: int, s: int)
    ensures
        rot_x(ax, ay, c, s) * rot_x(bx, by, c, s) + rot_y(ax, ay, c, s) * rot_y(bx, by, c, s) == (ax
            * bx + ay * by) * (c * c + s * s),
{
    lemma_mul_diff2(ax * c, ay * s, bx * c, by * s);
    lemma_distrib2(ax * s, ay * c, bx * s, by * c);
    lemma_mul_swap(ax, c, bx, c);
    lemma_mul_swap(ax, c, by, s);
    lemma_mul_swap(ay, s, bx, c);
    lemma_mul_swap(ay, s, by, s);
    lemma_mul_swap(ax, s, bx, s);
    lemma_mul_swap(ax, s, by, c);
    lemma_mul_swap(ay, c, bx, s);
    lemma_mul_swap(ay, c, by, c);
    lemma_mul_comm(s, c);
    lemma_distrib2(ax * bx, ay * by, c * c, s * s);
}

/// A valid rotation, rescaled toward zero, keeps a vector inside the unit
/// disc of the fixed-point scale.
pub proof fn lemma_rotated_norm_bounded(vx: int, vy: int, c: int, s: int)
    requires
        vx * vx + vy * vy <= (FP_ONE as int) * (FP_ONE as int),
        c * c + s * s <= (FP_ONE as int) * (FP_ONE as int),
    ensures
        quant(rot_x(vx, vy, c, s)) * quant(rot_x(vx, vy, c, s)) + quant(rot_y(vx, vy, c, s))
            * quant(rot_y(vx, vy, c, s)) <= (FP_ONE as int) * (FP_ONE as int),
{
    let d = FP_ONE as int;
    let rx = rot_x(vx, vy, c, s);
    let ry = rot_y(vx, vy, c, s);
    let qx = quant(rx);
    let qy = quant(ry);
    lemma_rotation_norm(vx, vy, c, s);
    assert(rx * rx + ry * ry <= (d * d) * (d * d)) by (nonlinear_arith)
        requires
            rx * rx + ry * ry == (vx * vx + vy * vy) * (c * c + s * s),
            vx * vx + vy * vy <= d * d,
            c * c + s * s <= d * d,
    ;
    lemma_quant_shrinks(rx);
    lemma_quant_shrinks(ry);
    let aqx = iabs(qx);
    let aqy = iabs(qy);
    let arx = iabs(rx);
    let ary = iabs(ry);
    assert(qx * qx * (d * d) <= rx * rx) by (nonlinear_arith)
        requires
            aqx * d <= arx,
            0 <= aqx,
            0 < d,
            qx == aqx || qx == -aqx,
            rx == arx || rx == -arx,
    ;
    assert(qy * qy * (d * d) <= ry * ry) by (nonlinear_arith)
        requires
            aqy * d <= ary,
            0 <= aqy,
            0 < d,
            qy == aqy || qy == -aqy,
            ry == ary || ry == -ary,
    ;
    assert(qx * qx + qy * qy <= d * d) by (nonlinear_arith)
        requires
            qx * qx * (d * d) + qy * qy * (d * d) <= (d * d) * (d * d),
            d > 0,
    ;
}

/// Rescale an intermediate `i64` product by `FP_ONE`, rounding toward zero.
pub fn quantize(v: i64) -> (r: i64)
    requires
        -0x4000_0000_0000_0000 <= v as int <= 0x4000_0000_0000_0000,
    ensures
        r as int == quant(v as int),
{
    if v >= 0 {
        ((v as u64) / (FP_ONE as u64)) as i64
    } else {
        let m: u64 = (-v) as u64;
        -((m / (FP_ONE as u64)) as i64)
    }
}

} // verus!
