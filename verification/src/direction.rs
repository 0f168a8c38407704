//! Quantization of a horizontal direction into eight facing sectors.
//!
//! Sector 0 is centred on the `+z` axis; the index grows as the direction
//! turns from `+z` toward `-x`, one sector per eighth of a turn, so sector 2
//! is centred on `-x`, sector 4 on `-z` and sector 6 on `+x`. A direction
//! belongs to the sector whose axis it is less than a sixteenth of a turn
//! away from. No direction with integer components lies on a boundary.

use vstd::prelude::*;

verus! {

/// The number of facing sectors.
pub const DIRECTIONS: usize = 8;

/// The absolute value of a number.
pub open spec fn magnitude(v: int) -> int {
    if v < 0 {
        -v
    } else {
        v
    }
}

/// A vector along the axis of sector `index`.
pub open spec fn axis(index: int) -> (int, int) {
    if index == 0 {
        (0, 1)
    } else if index == 1 {
        (-1, 1)
    } else if index == 2 {
        (-1, 0)
    } else if index == 3 {
        (-1, -1)
    } else if index == 4 {
        (0, -1)
    } else if index == 5 {
        (1, -1)
    } else if index == 6 {
        (1, 0)
    } else {
        (1, 1)
    }
}

/// A direction that reaches `along` along an axis and `across` across it is
/// less than a sixteenth of a turn away from that axis:
/// `across / along < tan(pi / 8) = sqrt(2) - 1`.
pub open spec fn narrow(across: int, along: int) -> bool {
    along > 0 && (across + along) * (across + along) < 2 * (along * along)
}

/// The direction `(x, z)` is less than a sixteenth of a turn away from
/// `axis`.
pub open spec fn within_sector(x: int, z: int, axis: (int, int)) -> bool {
    narrow(magnitude(x * axis.1 - z * axis.0), x * axis.0 + z * axis.1)
}

/// The direction `(x, z)` belongs to sector `index`.
pub open spec fn faces(x: int, z: int, index: int) -> bool {
    0 <= index < 8 && within_sector(x, z, axis(index))
}

/// The sector that the direction `(x, z)` belongs to; 0 for the vector
/// without direction.
pub closed spec fn sector_of(x: int, z: int) -> int {
    if exists|index: int| faces(x, z, index) {
        choose|index: int| faces(x, z, index)
    } else {
        0
    }
}

/// The sector that the direction `(x, z)` belongs to; 0 for the vector
/// without direction.
pub fn direction(x: i64, z: i64) -> (result: usize)
    ensures
        result == sector_of(x as int, z as int),
        result < DIRECTIONS,
        x != 0 || z != 0 ==> faces(x as int, z as int, result as int),
        x == 0 && z == 0 ==> result == 0,
{
    if x == 0 && z == 0 {
        assert(forall|index: int| !faces(0, 0, index));
        return 0;
    }
    let a: u128 = if x < 0 {
        (-(x as i128)) as u128
    } else {
        x as u128
    };
    let b: u128 = if z < 0 {
        (-(z as i128)) as u128
    } else {
        z as u128
    };
    proof {
        lemma_sectors(x as int, z as int);
        lemma_sector_exists(x as int, z as int);
        assert(a * (a + 2 * b) <= 0x8000_0000_0000_0000 * (3 * 0x8000_0000_0000_0000))
            by (nonlinear_arith)
            requires
                a <= 0x8000_0000_0000_0000,
                b <= 0x8000_0000_0000_0000,
        ;
        assert(b * (b + 2 * a) <= 0x8000_0000_0000_0000 * (3 * 0x8000_0000_0000_0000))
            by (nonlinear_arith)
            requires
                a <= 0x8000_0000_0000_0000,
                b <= 0x8000_0000_0000_0000,
        ;
        assert(a * a <= 0x8000_0000_0000_0000 * 0x8000_0000_0000_0000) by (nonlinear_arith)
            requires
                a <= 0x8000_0000_0000_0000,
        ;
        assert(b * b <= 0x8000_0000_0000_0000 * 0x8000_0000_0000_0000) by (nonlinear_arith)
            requires
                b <= 0x8000_0000_0000_0000,
        ;
    }
    let result: usize = if a * (a + 2 * b) < b * b {
        if z > 0 {
            0
        } else {
            4
        }
    } else if b * (b + 2 * a) < a * a {
        if x < 0 {
            2
        } else {
            6
        }
    } else if x < 0 {
        if z > 0 {
            1
        } else {
            3
        }
    } else if z < 0 {
        5
    } else {
        7
    };
    proof {
        lemma_sector_is_unique(x as int, z as int, sector_of(x as int, z as int), result as int);
    }
    result
}

/// A direction belongs to at most one sector.
pub proof fn lemma_sector_is_unique(x: int, z: int, first: int, second: int)
    requires
        faces(x, z, first),
        faces(x, z, second),
    ensures
        first == second,
        sector_of(x, z) == first,
{
    lemma_sectors(x, z);
    lemma_slight_or_clearly_not(magnitude(x), magnitude(z));
    let chosen = sector_of(x, z);
    assert(faces(x, z, chosen));
}

/// Every direction belongs to a sector.
pub proof fn lemma_sector_exists(x: int, z: int)
    requires
        x != 0 || z != 0,
    ensures
        faces(x, z, sector_of(x, z)),
{
    lemma_sectors(x, z);
    lemma_slight_or_clearly_not(magnitude(x), magnitude(z));
    let a = magnitude(x);
    let b = magnitude(z);
    if slight(a, b) {
        assert(b != 0);
        assert(faces(x, z, 0) || faces(x, z, 4));
    } else if slight(b, a) {
        assert(a != 0);
        assert(faces(x, z, 2) || faces(x, z, 6));
    } else {
        assert(x != 0 && z != 0) by {
            if x == 0 {
                assert(a * (a + 2 * b) == 0) by (nonlinear_arith)
                    requires
                        a == 0,
                ;
                assert(b * b > 0) by (nonlinear_arith)
                    requires
                        b > 0,
                ;
            }
            if z == 0 {
                assert(b * (b + 2 * a) == 0) by (nonlinear_arith)
                    requires
                        b == 0,
                ;
                assert(a * a > 0) by (nonlinear_arith)
                    requires
                        a > 0,
                ;
            }
        }
        assert(faces(x, z, 1) || faces(x, z, 3) || faces(x, z, 5) || faces(x, z, 7));
    }
}

/// Opposite directions belong to opposite sectors.
pub proof fn lemma_opposite_directions(x: int, z: int)
    requires
        x != 0 || z != 0,
    ensures
        sector_of(-x, -z) == (sector_of(x, z) + 4) % 8,
{
    lemma_sector_exists(x, z);
    let index = sector_of(x, z);
    let opposite = (index + 4) % 8;
    lemma_extents(x, z, index);
    lemma_extents(-x, -z, opposite);
    assert(faces(-x, -z, opposite));
    lemma_sector_is_unique(-x, -z, opposite, opposite);
}

/// The sectors are alike all the way round: a direction turned by an
/// eighth of a turn, from `+z` toward `-x`, belongs to the next sector.
/// The turned direction is `(x - z, x + z)`, longer by the factor
/// `sqrt(2)`.
pub proof fn lemma_eighth_turn(x: int, z: int)
    requires
        x != 0 || z != 0,
    ensures
        sector_of(x - z, x + z) == (sector_of(x, z) + 1) % 8,
{
    lemma_sector_exists(x, z);
    let index = sector_of(x, z);
    let next = (index + 1) % 8;
    lemma_extents(x, z, index);
    lemma_extents(x - z, x + z, next);
    let across = x * axis(index).1 - z * axis(index).0;
    let along = x * axis(index).0 + z * axis(index).1;
    lemma_magnitude_scales(across, 2);
    lemma_narrow_scales(magnitude(across), along, 2);
    assert(magnitude(-across) == magnitude(across));
    assert(magnitude(-(2 * across)) == magnitude(2 * across));
    assert(faces(x - z, x + z, next));
    lemma_sector_is_unique(x - z, x + z, next, next);
}

/// Stretching a direction by a positive factor leaves it in its sector.
pub proof fn lemma_direction_ignores_length(x: int, z: int, factor: int)
    requires
        factor > 0,
        x != 0 || z != 0,
    ensures
        sector_of(factor * x, factor * z) == sector_of(x, z),
{
    lemma_sector_exists(x, z);
    let index = sector_of(x, z);
    let p = axis(index).0;
    let q = axis(index).1;
    let across = x * q - z * p;
    let along = x * p + z * q;
    assert((factor * x) * q - (factor * z) * p == factor * across) by (nonlinear_arith)
        requires
            across == x * q - z * p,
    ;
    assert((factor * x) * p + (factor * z) * q == factor * along) by (nonlinear_arith)
        requires
            along == x * p + z * q,
    ;
    lemma_magnitude_scales(across, factor);
    lemma_narrow_scales(magnitude(across), along, factor);
    lemma_sector_is_unique(factor * x, factor * z, index, index);
}

/// `a` is so small beside `b` that `(a, b)` is less than a sixteenth of a
/// turn away from `(0, b)`.
pub open spec fn slight(a: int, b: int) -> bool {
    a * (a + 2 * b) < b * b
}

/// A component times an axis component is the component itself, its
/// negative or nothing.
pub open spec fn signed(v: int, sign: int) -> int {
    if sign == 1 {
        v
    } else if sign == -1 {
        -v
    } else {
        0
    }
}

/// No square of a whole number is twice the square of another.
proof fn lemma_no_square_is_twice_a_square(s: nat, b: nat)
    requires
        s * s == 2 * (b * b),
    ensures
        s == 0,
        b == 0,
    decreases s,
{
    if s == 0 {
        assert(b == 0) by (nonlinear_arith)
            requires
                2 * (b * b) == 0,
        ;
    } else {
        let t = s / 2;
        if s % 2 == 1 {
            assert(s * s == 2 * (2 * (t * t) + 2 * t) + 1) by (nonlinear_arith)
                requires
                    s == 2 * t + 1,
            ;
            assert(false);
        }
        assert(b * b == 2 * (t * t)) by (nonlinear_arith)
            requires
                s == 2 * t,
                s * s == 2 * (b * b),
        ;
        assert(b < s) by (nonlinear_arith)
            requires
                s > 0,
                s * s == 2 * (b * b),
        ;
        lemma_no_square_is_twice_a_square(b, t);
        assert(false);
    }
}

/// Beside a larger or equal `b`, `a` is either slight or clearly not:
/// the boundary between the two is never hit.
proof fn lemma_slight_or_clearly_not(a: int, b: int)
    requires
        a >= 0,
        b >= 0,
        a != 0 || b != 0,
    ensures
        slight(a, b) <==> (a + b) * (a + b) < 2 * (b * b),
        !slight(a, b) <==> (a + b) * (a + b) > 2 * (b * b),
        !(slight(a, b) && slight(b, a)),
{
    assert((a + b) * (a + b) - 2 * (b * b) == a * (a + 2 * b) - b * b) by (nonlinear_arith);
    assert((a + b) * (a + b) >= 0) by (nonlinear_arith);
    assert(b * b >= 0) by (nonlinear_arith);
    if (a + b) * (a + b) == 2 * (b * b) {
        assert(((a + b) as nat) * ((a + b) as nat) == 2 * ((b as nat) * (b as nat)));
        lemma_no_square_is_twice_a_square((a + b) as nat, b as nat);
    }
    if slight(a, b) && slight(b, a) {
        assert(false) by (nonlinear_arith)
            requires
                a >= 0,
                b >= 0,
                a * (a + 2 * b) < b * b,
                b * (b + 2 * a) < a * a,
        ;
    }
}

/// About a coordinate axis: narrow exactly if the extent along the axis is
/// positive and the other one slight beside it.
proof fn lemma_axis_sector(across: int, along: int)
    requires
        across != 0 || along != 0,
    ensures
        narrow(magnitude(across), along) <==> along > 0 && slight(
            magnitude(across),
            magnitude(along),
        ),
{
    if along > 0 {
        lemma_slight_or_clearly_not(magnitude(across), along);
    }
}

/// About the diagonal of the quadrant in which `u` and `v` are positive:
/// narrow exactly if both are positive and neither is slight beside the
/// other.
proof fn lemma_diagonal_sector(u: int, v: int)
    requires
        u != 0 || v != 0,
    ensures
        narrow(magnitude(u - v), u + v) <==> u > 0 && v > 0 && !slight(magnitude(u), magnitude(v))
            && !slight(magnitude(v), magnitude(u)),
        magnitude(v - u) == magnitude(u - v),
{
    let across = magnitude(u - v);
    let along = u + v;
    if u > 0 && v > 0 {
        lemma_slight_or_clearly_not(u, v);
        lemma_slight_or_clearly_not(v, u);
        assert((v + u) * (v + u) == along * along) by (nonlinear_arith)
            requires
                along == u + v,
        ;
        if u <= v {
            assert(across + along == 2 * v);
            assert((2 * v) * (2 * v) == 4 * (v * v)) by (nonlinear_arith);
            assert(2 * (u * u) <= along * along) by (nonlinear_arith)
                requires
                    0 <= u <= v,
                    along == u + v,
            ;
        } else {
            assert(across + along == 2 * u);
            assert((2 * u) * (2 * u) == 4 * (u * u)) by (nonlinear_arith);
            assert(2 * (v * v) <= along * along) by (nonlinear_arith)
                requires
                    0 <= v <= u,
                    along == u + v,
            ;
        }
    } else if along > 0 {
        assert(across >= along);
        assert((across + along) * (across + along) >= 2 * (along * along)) by (nonlinear_arith)
            requires
                across >= along,
                along > 0,
        ;
    }
}

/// The extents of `(x, z)` across and along the axis of a sector are sums
/// and differences of its components.
proof fn lemma_extents(x: int, z: int, index: int)
    requires
        0 <= index < 8,
    ensures
        x * axis(index).1 - z * axis(index).0 == signed(x, axis(index).1) - signed(
            z,
            axis(index).0,
        ),
        x * axis(index).0 + z * axis(index).1 == signed(x, axis(index).0) + signed(
            z,
            axis(index).1,
        ),
{
    let p = axis(index).0;
    let q = axis(index).1;
    assert(x * p == signed(x, p) && z * p == signed(z, p)) by (nonlinear_arith)
        requires
            -1 <= p <= 1,
    ;
    assert(x * q == signed(x, q) && z * q == signed(z, q)) by (nonlinear_arith)
        requires
            -1 <= q <= 1,
    ;
}

/// What membership of each sector means for the signs and sizes of the
/// components.
proof fn lemma_sectors(x: int, z: int)
    requires
        x != 0 || z != 0,
    ensures
        faces(x, z, 0) <==> z > 0 && slight(magnitude(x), magnitude(z)),
        faces(x, z, 4) <==> z < 0 && slight(magnitude(x), magnitude(z)),
        faces(x, z, 2) <==> x < 0 && slight(magnitude(z), magnitude(x)),
        faces(x, z, 6) <==> x > 0 && slight(magnitude(z), magnitude(x)),
        faces(x, z, 1) <==> x < 0 && z > 0 && !slight(magnitude(x), magnitude(z)) && !slight(
            magnitude(z),
            magnitude(x),
        ),
        faces(x, z, 3) <==> x < 0 && z < 0 && !slight(magnitude(x), magnitude(z)) && !slight(
            magnitude(z),
            magnitude(x),
        ),
        faces(x, z, 5) <==> x > 0 && z < 0 && !slight(magnitude(x), magnitude(z)) && !slight(
            magnitude(z),
            magnitude(x),
        ),
        faces(x, z, 7) <==> x > 0 && z > 0 && !slight(magnitude(x), magnitude(z)) && !slight(
            magnitude(z),
            magnitude(x),
        ),
{
    lemma_extents(x, z, 0);
    assert(faces(x, z, 0) == narrow(magnitude(x), z));
    lemma_axis_sector(x, z);
    lemma_extents(x, z, 4);
    assert(faces(x, z, 4) == narrow(magnitude(-x), -z));
    lemma_axis_sector(-x, -z);
    lemma_extents(x, z, 2);
    assert(faces(x, z, 2) == narrow(magnitude(z), -x));
    lemma_axis_sector(z, -x);
    lemma_extents(x, z, 6);
    assert(faces(x, z, 6) == narrow(magnitude(-z), x));
    lemma_axis_sector(-z, x);
    lemma_extents(x, z, 1);
    assert(faces(x, z, 1) == narrow(magnitude(z - (-x)), -x + z));
    lemma_diagonal_sector(-x, z);
    lemma_extents(x, z, 3);
    assert(faces(x, z, 3) == narrow(magnitude(-x - (-z)), -x + -z));
    lemma_diagonal_sector(-x, -z);
    lemma_extents(x, z, 5);
    assert(faces(x, z, 5) == narrow(magnitude(-z - x), x + -z));
    lemma_diagonal_sector(x, -z);
    lemma_extents(x, z, 7);
    assert(faces(x, z, 7) == narrow(magnitude(x - z), x + z));
    lemma_diagonal_sector(x, z);
}

/// Stretching a direction does not change how narrow it is about an axis.
proof fn lemma_narrow_scales(across: int, along: int, factor: int)
    requires
        factor > 0,
    ensures
        narrow(factor * across, factor * along) <==> narrow(across, along),
{
    let sum = across + along;
    assert(factor * across + factor * along == factor * sum) by (nonlinear_arith)
        requires
            sum == across + along,
    ;
    assert((factor * sum) * (factor * sum) == (factor * factor) * (sum * sum)) by (nonlinear_arith);
    assert(2 * ((factor * along) * (factor * along)) == (factor * factor) * (2 * (along * along)))
        by (nonlinear_arith);
    assert(factor * factor > 0) by (nonlinear_arith)
        requires
            factor > 0,
    ;
    assert(factor * along > 0 <==> along > 0) by (nonlinear_arith)
        requires
            factor > 0,
    ;
    let scale = factor * factor;
    let left = sum * sum;
    let right = 2 * (along * along);
    assert(scale * left < scale * right <==> left < right) by (nonlinear_arith)
        requires
            scale > 0,
    ;
}

/// The absolute value of a stretched number is the stretched absolute
/// value.
proof fn lemma_magnitude_scales(v: int, factor: int)
    requires
        factor > 0,
    ensures
        magnitude(factor * v) == factor * magnitude(v),
{
    assert(factor * v < 0 <==> v < 0) by (nonlinear_arith)
        requires
            factor > 0,
    ;
    assert(factor * (-v) == -(factor * v)) by (nonlinear_arith);
}

} // verus!
