//! Exact fixed-point 3-component vector.
//!
//! One coordinate unit is a millionth of a model unit, so a model that the
//! text format renders with six decimal places is represented without loss.
//! Subtraction, dot and cross products are exact integer arithmetic; there
//! is no normalisation here, since a unit vector is irrational in this
//! representation.  Degeneracy tests of the engine only ever ask whether a
//! cross product is the zero vector, which is exact.

use vstd::prelude::*;

verus! {

/// Largest magnitude a stored coordinate may have: one thousand model units.
///
/// The bound keeps every derived quantity of the engine (differences, cross
/// products of differences, squared lengths) inside `i64` / `i128` range.
pub const COORD_LIMIT: i64 = 1_000_000_000;

/// Fixed-point 3D vector; coordinates carry six implied decimal places.
#[derive(Clone, Copy, Debug, PartialEq, Eq, Structural)]
pub struct Vector3 {
    pub x: i64,
    pub y: i64,
    pub z: i64,
}

/// Product of two values of magnitude at most `2 * COORD_LIMIT` stays well
/// inside `i64` range.
proof fn lemma_mul_bound(a: int, b: int)
    requires
        -2_000_000_000 <= a <= 2_000_000_000,
        -2_000_000_000 <= b <= 2_000_000_000,
    ensures
        -4_000_000_000_000_000_000 <= a * b <= 4_000_000_000_000_000_000,
{
    assert(-4_000_000_000_000_000_000 <= a * b <= 4_000_000_000_000_000_000)
        by (nonlinear_arith)
        requires
            -2_000_000_000 <= a <= 2_000_000_000,
            -2_000_000_000 <= b <= 2_000_000_000,
    ;
}

impl Vector3 {
    /// All three coordinates have magnitude at most `b`.
    pub open spec fn bounded(self, b: int) -> bool {
        &&& -b <= self.x <= b
        &&& -b <= self.y <= b
        &&& -b <= self.z <= b
    }

    /// A coordinate vector the engine accepts for a vertex.
    pub open spec fn in_range(self) -> bool {
        self.bounded(COORD_LIMIT as int)
    }

    /// The zero vector.
    pub open spec fn is_zero(self) -> bool {
        self.x == 0 && self.y == 0 && self.z == 0
    }

    /// Exact difference, component by component.
    pub open spec fn spec_sub(self, rhs: Vector3) -> Vector3 {
        Vector3 {
            x: (self.x - rhs.x) as i64,
            y: (self.y - rhs.y) as i64,
            z: (self.z - rhs.z) as i64,
        }
    }

    /// Exact dot product over unbounded integers.
    pub open spec fn spec_dot(self, rhs: Vector3) -> int {
        self.x * rhs.x + self.y * rhs.y + self.z * rhs.z
    }

    /// Exact cross product over unbounded integers, component by component.
    pub open spec fn spec_cross_x(self, rhs: Vector3) -> int {
        self.y * rhs.z - self.z * rhs.y
    }

    /// Exact cross product over unbounded integers, component by component.
    pub open spec fn spec_cross_y(self, rhs: Vector3) -> int {
        self.z * rhs.x - self.x * rhs.z
    }

    /// Exact cross product over unbounded integers, component by component.
    pub open spec fn spec_cross_z(self, rhs: Vector3) -> int {
        self.x * rhs.y - self.y * rhs.x
    }

    /// New vector from fixed-point coordinates.
    pub fn new(x: i64, y: i64, z: i64) -> (r: Self)
        ensures
            r == (Vector3 { x, y, z }),
    {
        Vector3 { x, y, z }
    }

    /// The three coordinates as a list, in `x`, `y`, `z` order.
    pub fn as_vec(&self) -> (r: Vec<i64>)
        ensures
            r@ == seq![self.x, self.y, self.z],
    {
        let mut v: Vec<i64> = Vec::new();
        v.push(self.x);
        v.push(self.y);
        v.push(self.z);
        proof {
            assert(v@ =~= seq![self.x, self.y, self.z]);
        }
        v
    }

    /// Exact difference of two in-range vectors.
    pub fn sub(&self, rhs: &Vector3) -> (r: Vector3)
        requires
            self.in_range(),
            rhs.in_range(),
        ensures
            r == self.spec_sub(*rhs),
            r.bounded(2 * COORD_LIMIT as int),
    {
        Vector3 { x: self.x - rhs.x, y: self.y - rhs.y, z: self.z - rhs.z }
    }

    /// Exact dot product of two difference vectors.
    pub fn dot(&self, rhs: &Vector3) -> (r: i128)
        requires
            self.bounded(2 * COORD_LIMIT as int),
            rhs.bounded(2 * COORD_LIMIT as int),
        ensures
            r as int == self.spec_dot(*rhs),
    {
        let xx = mul_wide(self.x, rhs.x);
        let yy = mul_wide(self.y, rhs.y);
        let zz = mul_wide(self.z, rhs.z);
        xx + yy + zz
    }

    /// Exact squared length of a difference vector.
    pub fn length_sq(&self) -> (r: i128)
        requires
            self.bounded(2 * COORD_LIMIT as int),
        ensures
            r as int == self.spec_dot(*self),
            r >= 0,
    {
        let r = self.dot(self);
        proof {
            assert(self.x * self.x >= 0) by (nonlinear_arith);
            assert(self.y * self.y >= 0) by (nonlinear_arith);
            assert(self.z * self.z >= 0) by (nonlinear_arith);
        }
        r
    }

    /// Exact cross product of two difference vectors.
    pub fn cross(&self, rhs: &Vector3) -> (r: Vector3)
        requires
            self.bounded(2 * COORD_LIMIT as int),
            rhs.bounded(2 * COORD_LIMIT as int),
        ensures
            r.x as int == self.spec_cross_x(*rhs),
            r.y as int == self.spec_cross_y(*rhs),
            r.z as int == self.spec_cross_z(*rhs),
    {
        let cx = mul_wide(self.y, rhs.z) - mul_wide(self.z, rhs.y);
        let cy = mul_wide(self.z, rhs.x) - mul_wide(self.x, rhs.z);
        let cz = mul_wide(self.x, rhs.y) - mul_wide(self.y, rhs.x);
        Vector3 { x: cx as i64, y: cy as i64, z: cz as i64 }
    }
}

/// Exact product of two bounded coordinates, widened to `i128`.
fn mul_wide(a: i64, b: i64) -> (r: i128)
    requires
        -2_000_000_000 <= a <= 2_000_000_000,
        -2_000_000_000 <= b <= 2_000_000_000,
    ensures
        r as int == a * b,
        -4_000_000_000_000_000_000 <= r <= 4_000_000_000_000_000_000,
{
    proof {
        lemma_mul_bound(a as int, b as int);
    }
    (a as i128) * (b as i128)
}

} // verus!
