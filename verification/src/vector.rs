//! Vectors of fixed-point components.

use crate::fixed::{
    floor_div, floor_sqrt, floor_sqrt_of, is_floor_sqrt, lemma_floor_sqrt_at_least,
    lemma_floor_sqrt_exists, lemma_negative_quotient, lemma_no_quotient, product, quotient,
    saturate, saturated, scale, ONE,
};
use vstd::prelude::*;

verus! {

/// A point or direction on the screen.
#[derive(Clone, Copy, Debug, PartialEq, Eq, Structural)]
pub struct Vec2 {
    pub x: i64,
    pub y: i64,
}

/// A point or direction in the world.
#[derive(Clone, Copy, Debug, PartialEq, Eq, Structural)]
pub struct Vec3 {
    pub x: i64,
    pub y: i64,
    pub z: i64,
}

/// A point in homogeneous clip space.
#[derive(Clone, Copy, Debug, PartialEq, Eq, Structural)]
pub struct Vec4 {
    pub x: i64,
    pub y: i64,
    pub z: i64,
    pub w: i64,
}

/// The largest size of a component of a vector of which a cross product is
/// taken: 2^30.
pub const CROSS_LIMIT: i64 = 1073741824;

/// The square of a number.
pub open spec fn square(v: int) -> nat {
    (v * v) as nat
}

/// The distance between two coordinates.
fn span(a: i64, b: i64) -> (result: u128)
    ensures
        result == if a <= b {
            b - a
        } else {
            a - b
        },
        result * result == square(a - b),
        result <= 0xffff_ffff_ffff_ffff,
{
    let result: u128 = if a <= b {
        (b as i128 - a as i128) as u128
    } else {
        (a as i128 - b as i128) as u128
    };
    assert(result * result == (a - b) * (a - b)) by (nonlinear_arith)
        requires
            result == a - b || result == b - a,
    ;
    assert((a - b) * (a - b) >= 0) by (nonlinear_arith);
    result
}

impl Vec3 {
    /// The component-wise sum, each component stopping at the ends of the
    /// representable range.
    pub open spec fn plus(self, other: Vec3) -> Vec3 {
        Vec3 {
            x: saturated(self.x + other.x) as i64,
            y: saturated(self.y + other.y) as i64,
            z: saturated(self.z + other.z) as i64,
        }
    }

    /// The component-wise difference, each component stopping at the ends
    /// of the representable range.
    pub open spec fn minus(self, other: Vec3) -> Vec3 {
        Vec3 {
            x: saturated(self.x - other.x) as i64,
            y: saturated(self.y - other.y) as i64,
            z: saturated(self.z - other.z) as i64,
        }
    }

    /// The vector stretched by a fixed-point factor, each component
    /// stopping at the ends of the representable range.
    pub open spec fn times(self, factor: int) -> Vec3 {
        Vec3 {
            x: saturated(product(self.x as int, factor)) as i64,
            y: saturated(product(self.y as int, factor)) as i64,
            z: saturated(product(self.z as int, factor)) as i64,
        }
    }

    /// The square of the Euclidean distance to `other`, in units of
    /// 1/65536 squared.
    pub open spec fn squared_distance(self, other: Vec3) -> nat {
        square(self.x - other.x) + square(self.y - other.y) + square(self.z - other.z)
    }

    /// The square of the Euclidean length.
    pub open spec fn squared_magnitude(self) -> nat {
        square(self.x as int) + square(self.y as int) + square(self.z as int)
    }

    /// The Euclidean length, rounded down.
    pub open spec fn magnitude(self) -> nat {
        floor_sqrt_of(self.squared_magnitude())
    }

    /// The vector of length one that points the same way, each component
    /// rounded down.
    pub open spec fn normalized(self) -> Vec3
        recommends
            self.magnitude() > 0,
    {
        Vec3 {
            x: quotient(self.x as int, self.magnitude() as int) as i64,
            y: quotient(self.y as int, self.magnitude() as int) as i64,
            z: quotient(self.z as int, self.magnitude() as int) as i64,
        }
    }

    /// No component is larger than [`CROSS_LIMIT`].
    pub open spec fn is_short(self) -> bool {
        &&& -CROSS_LIMIT <= self.x <= CROSS_LIMIT
        &&& -CROSS_LIMIT <= self.y <= CROSS_LIMIT
        &&& -CROSS_LIMIT <= self.z <= CROSS_LIMIT
    }

    /// The cross product with `other`: a vector at right angles to both,
    /// as long as the area that the two span.
    pub open spec fn cross_product(self, other: Vec3) -> Vec3 {
        Vec3 {
            x: (self.y * other.z - self.z * other.y) as i64,
            y: (self.z * other.x - self.x * other.z) as i64,
            z: (self.x * other.y - self.y * other.x) as i64,
        }
    }

    /// The cross product with `other`, computed by cgmath's
    /// `Vector3::cross` on `i64` components. That function returns the
    /// three differences of products of components that
    /// [`Vec3::cross_product`] states; with components of at most
    /// [`CROSS_LIMIT`] none of its products and differences leaves `i64`.
    #[verifier::external_body]
    pub(crate) fn cross(self, other: Vec3) -> (result: Vec3)
        requires
            self.is_short(),
            other.is_short(),
        ensures
            result == self.cross_product(other),
    {
        let crossed = cgmath::Vector3::new(self.x, self.y, self.z).cross(
            cgmath::Vector3::new(other.x, other.y, other.z),
        );
        Vec3 { x: crossed.x, y: crossed.y, z: crossed.z }
    }

    /// Adds two vectors.
    pub fn saturating_add(self, other: Vec3) -> (result: Vec3)
        ensures
            result == self.plus(other),
    {
        Vec3 {
            x: saturate(self.x as i128 + other.x as i128),
            y: saturate(self.y as i128 + other.y as i128),
            z: saturate(self.z as i128 + other.z as i128),
        }
    }

    /// Subtracts a vector.
    pub fn saturating_sub(self, other: Vec3) -> (result: Vec3)
        ensures
            result == self.minus(other),
    {
        Vec3 {
            x: saturate(self.x as i128 - other.x as i128),
            y: saturate(self.y as i128 - other.y as i128),
            z: saturate(self.z as i128 - other.z as i128),
        }
    }

    /// Stretches the vector by a fixed-point factor.
    pub fn scaled(self, factor: i64) -> (result: Vec3)
        ensures
            result == self.times(factor as int),
    {
        Vec3 { x: scale(self.x, factor), y: scale(self.y, factor), z: scale(self.z, factor) }
    }

    /// The Euclidean distance to `other`, rounded down.
    pub fn distance(self, other: Vec3) -> (result: i64)
        ensures
            result == saturated(floor_sqrt_of(self.squared_distance(other)) as int),
    {
        let dx: u128 = span(self.x, other.x);
        let dy: u128 = span(self.y, other.y);
        let dz: u128 = span(self.z, other.z);
        let limit: u128 = 0x8000_0000_0000_0000;
        if dx >= limit || dy >= limit || dz >= limit {
            proof {
                let widest = if dx >= limit {
                    dx
                } else if dy >= limit {
                    dy
                } else {
                    dz
                };
                assert(limit * limit <= widest * widest) by (nonlinear_arith)
                    requires
                        0 <= limit <= widest,
                ;
                lemma_floor_sqrt_at_least(self.squared_distance(other), limit as nat);
            }
            i64::MAX
        } else {
            assert(dx * dx <= 0x7fff_ffff_ffff_ffff * 0x7fff_ffff_ffff_ffff) by (nonlinear_arith)
                requires
                    dx <= 0x7fff_ffff_ffff_ffff,
            ;
            assert(dy * dy <= 0x7fff_ffff_ffff_ffff * 0x7fff_ffff_ffff_ffff) by (nonlinear_arith)
                requires
                    dy <= 0x7fff_ffff_ffff_ffff,
            ;
            assert(dz * dz <= 0x7fff_ffff_ffff_ffff * 0x7fff_ffff_ffff_ffff) by (nonlinear_arith)
                requires
                    dz <= 0x7fff_ffff_ffff_ffff,
            ;
            let root: u64 = floor_sqrt(dx * dx + dy * dy + dz * dz);
            saturate(root as i128)
        }
    }

    /// The Euclidean length, rounded down.
    pub fn length(self) -> (result: u64)
        ensures
            result == self.magnitude(),
    {
        let ax: u128 = span(self.x, 0);
        let ay: u128 = span(self.y, 0);
        let az: u128 = span(self.z, 0);
        let limit: u128 = 0x8000_0000_0000_0000;
        assert(ax * ax <= limit * limit) by (nonlinear_arith)
            requires
                ax <= limit,
        ;
        assert(ay * ay <= limit * limit) by (nonlinear_arith)
            requires
                ay <= limit,
        ;
        assert(az * az <= limit * limit) by (nonlinear_arith)
            requires
                az <= limit,
        ;
        floor_sqrt(ax * ax + ay * ay + az * az)
    }

    /// The vector of length one that points the same way as a vector that
    /// has a length.
    pub(crate) fn unit(self) -> (result: Vec3)
        requires
            self.magnitude() > 0,
        ensures
            result == self.normalized(),
    {
        proof {
            lemma_normalized_is_short(self);
        }
        let length: i128 = self.length() as i128;
        Vec3 {
            x: floor_div(self.x as i128 * ONE as i128, length) as i64,
            y: floor_div(self.y as i128 * ONE as i128, length) as i64,
            z: floor_div(self.z as i128 * ONE as i128, length) as i64,
        }
    }

    /// The vector of length one that points the same way, or `None` for a
    /// vector too short to have a direction.
    pub fn normalize(self) -> (result: Option<Vec3>)
        ensures
            self.magnitude() == 0 ==> result is None,
            self.magnitude() > 0 ==> result == Some(self.normalized()),
    {
        if self.length() == 0 {
            None
        } else {
            Some(self.unit())
        }
    }
}

/// No quotient of a coordinate by a length that the coordinate does not
/// exceed lies outside `-ONE ..= ONE`.
proof fn lemma_quotient_is_short(v: int, length: int)
    requires
        length > 0,
        -length <= v <= length,
    ensures
        -ONE <= quotient(v, length) <= ONE,
{
    let one = ONE as int;
    assert(-one * length <= v * one <= one * length) by (nonlinear_arith)
        requires
            -length <= v <= length,
            one > 0,
    ;
    assert(v * one / length <= one) by (nonlinear_arith)
        requires
            v * one <= one * length,
            length > 0,
    ;
    assert(v * one / length >= -one) by (nonlinear_arith)
        requires
            -one * length <= v * one,
            length > 0,
    ;
}

/// The components of a normalized vector lie in `-ONE ..= ONE`.
pub proof fn lemma_normalized_is_short(v: Vec3)
    requires
        v.magnitude() > 0,
    ensures
        -ONE <= quotient(v.x as int, v.magnitude() as int) <= ONE,
        -ONE <= quotient(v.y as int, v.magnitude() as int) <= ONE,
        -ONE <= quotient(v.z as int, v.magnitude() as int) <= ONE,
{
    let length = v.magnitude() as int;
    lemma_floor_sqrt_exists(v.squared_magnitude());
    assert(is_floor_sqrt(v.squared_magnitude(), v.magnitude()));
    let x = v.x as int;
    let y = v.y as int;
    let z = v.z as int;
    assert(x * x >= 0 && y * y >= 0 && z * z >= 0) by (nonlinear_arith);
    assert(-length <= x <= length && -length <= y <= length && -length <= z <= length)
        by (nonlinear_arith)
        requires
            length >= 0,
            x * x + y * y + z * z < (length + 1) * (length + 1),
    ;
    lemma_quotient_is_short(x, length);
    lemma_quotient_is_short(y, length);
    lemma_quotient_is_short(z, length);
}

/// A vector that has a length keeps a direction when it is normalized:
/// not all components of the result are zero.
pub proof fn lemma_normalized_is_not_zero(v: Vec3)
    requires
        v.magnitude() > 0,
    ensures
        v.normalized().x != 0 || v.normalized().y != 0 || v.normalized().z != 0,
{
    let length = v.magnitude() as int;
    let one = ONE as int;
    let x = v.x as int;
    let y = v.y as int;
    let z = v.z as int;
    lemma_normalized_is_short(v);
    lemma_floor_sqrt_exists(v.squared_magnitude());
    assert(is_floor_sqrt(v.squared_magnitude(), v.magnitude()));
    assert(x * x >= 0 && y * y >= 0 && z * z >= 0) by (nonlinear_arith);
    if x < 0 {
        lemma_negative_quotient(x * one, length);
    } else if y < 0 {
        lemma_negative_quotient(y * one, length);
    } else if z < 0 {
        lemma_negative_quotient(z * one, length);
    } else if quotient(x, length) == 0 && quotient(y, length) == 0 && quotient(z, length) == 0 {
        lemma_no_quotient(x * one, length);
        lemma_no_quotient(y * one, length);
        lemma_no_quotient(z * one, length);
        assert(length <= x + y + z) by (nonlinear_arith)
            requires
                x >= 0,
                y >= 0,
                z >= 0,
                length >= 0,
                length * length <= x * x + y * y + z * z,
        ;
        assert(false);
    }
}

} // verus!
