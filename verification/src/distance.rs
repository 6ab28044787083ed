//! Integer squared distance between points, computed in 32-bit wrapping
//! arithmetic as the hardware datapath does.
use vstd::prelude::*;
use crate::point::Point3D;
use vstd::arithmetic::div_mod::{lemma_mul_mod_noop, lemma_add_mod_noop, lemma_small_mod};
use vstd::arithmetic::mul::lemma_mul_nonnegative;

verus! {

/// The modulus of the 32-bit datapath.
pub open spec fn word_range() -> int {
    0x1_0000_0000
}

/// Square of the difference of two coordinates, as a mathematical integer.
pub open spec fn square_diff(a: u16, b: u16) -> int {
    (a - b) * (a - b)
}

/// Exact squared Euclidean distance between two points.
pub open spec fn exact_distance_sq(p: Point3D, q: Point3D) -> int {
    square_diff(p.x, q.x) + square_diff(p.y, q.y) + square_diff(p.z, q.z)
}

/// The squared distance that the 32-bit datapath computes: the exact value
/// reduced modulo 2^32.
pub open spec fn distance_sq(p: Point3D, q: Point3D) -> u32 {
    (exact_distance_sq(p, q) % word_range()) as u32
}

/// Whether `q` lies within the squared radius `threshold_sq` of `p`, as the
/// datapath decides it.
pub open spec fn within(p: Point3D, q: Point3D, threshold_sq: u32) -> bool {
    distance_sq(p, q) <= threshold_sq
}

/// A squared difference is non-negative and symmetric.
proof fn lemma_square_diff_nonneg(a: u16, b: u16)
    ensures
        square_diff(a, b) >= 0,
        square_diff(a, b) == square_diff(b, a),
{
    if a >= b {
        lemma_mul_nonnegative(a - b, a - b);
    } else {
        lemma_mul_nonnegative(b - a, b - a);
    }
    assert((a - b) * (a - b) == (b - a) * (b - a)) by (nonlinear_arith);
}

/// The wrapped difference of two coordinates, squared with wrapping, is the
/// true square reduced modulo 2^32.
proof fn lemma_wrapped_square(a: u16, b: u16, d: u32, d2: u32)
    requires
        d as int == (a - b) % word_range(),
        d2 as int == (d * d) % word_range(),
    ensures
        d2 as int == square_diff(a, b) % word_range(),
{
    lemma_mul_mod_noop(a - b, a - b, word_range());
}

/// Symmetry: the datapath distance does not depend on the order of the points.
pub proof fn lemma_distance_symmetric(p: Point3D, q: Point3D)
    ensures
        distance_sq(p, q) == distance_sq(q, p),
        exact_distance_sq(p, q) == exact_distance_sq(q, p),
{
    lemma_square_diff_nonneg(p.x, q.x);
    lemma_square_diff_nonneg(p.y, q.y);
    lemma_square_diff_nonneg(p.z, q.z);
}

/// A point is at distance zero from itself.
pub proof fn lemma_distance_self_zero(p: Point3D)
    ensures
        distance_sq(p, p) == 0,
{
}

/// Where the exact squared distance fits in 32 bits, the datapath computes it
/// exactly.
pub proof fn lemma_distance_exact_when_small(p: Point3D, q: Point3D)
    requires
        exact_distance_sq(p, q) < word_range(),
    ensures
        distance_sq(p, q) as int == exact_distance_sq(p, q),
{
    lemma_square_diff_nonneg(p.x, q.x);
    lemma_square_diff_nonneg(p.y, q.y);
    lemma_square_diff_nonneg(p.z, q.z);
    lemma_small_mod(exact_distance_sq(p, q) as nat, word_range() as nat);
}

/// A coordinate differs from itself by nothing.
proof fn lemma_square_diff_same(a: u16)
    ensures
        square_diff(a, a) == 0,
{
    assert((a - a) * (a - a) == 0) by (nonlinear_arith);
}

/// Each coordinate counts in full: for two points that differ along one axis
/// only, the squared distance is the square of that difference (which always
/// fits in 32 bits).
pub proof fn lemma_distance_along_one_axis(p: Point3D, q: Point3D)
    ensures
        p.y == q.y && p.z == q.z ==> distance_sq(p, q) as int == (p.x - q.x) * (p.x - q.x),
        p.x == q.x && p.z == q.z ==> distance_sq(p, q) as int == (p.y - q.y) * (p.y - q.y),
        p.x == q.x && p.y == q.y ==> distance_sq(p, q) as int == (p.z - q.z) * (p.z - q.z),
{
    lemma_square_diff_nonneg(p.x, q.x);
    lemma_square_diff_nonneg(p.y, q.y);
    lemma_square_diff_nonneg(p.z, q.z);
    assert(square_diff(p.x, q.x) <= 65535 * 65535) by (nonlinear_arith)
        requires
            square_diff(p.x, q.x) == (p.x - q.x) * (p.x - q.x),
            -65535 <= p.x - q.x <= 65535,
    ;
    assert(square_diff(p.y, q.y) <= 65535 * 65535) by (nonlinear_arith)
        requires
            square_diff(p.y, q.y) == (p.y - q.y) * (p.y - q.y),
            -65535 <= p.y - q.y <= 65535,
    ;
    assert(square_diff(p.z, q.z) <= 65535 * 65535) by (nonlinear_arith)
        requires
            square_diff(p.z, q.z) == (p.z - q.z) * (p.z - q.z),
            -65535 <= p.z - q.z <= 65535,
    ;
    if p.y == q.y && p.z == q.z {
        lemma_square_diff_same(p.y);
        lemma_square_diff_same(p.z);
        lemma_distance_exact_when_small(p, q);
    }
    if p.x == q.x && p.z == q.z {
        lemma_square_diff_same(p.x);
        lemma_square_diff_same(p.z);
        lemma_distance_exact_when_small(p, q);
    }
    if p.x == q.x && p.y == q.y {
        lemma_square_diff_same(p.x);
        lemma_square_diff_same(p.y);
        lemma_distance_exact_when_small(p, q);
    }
}

/// Squared distance between two points, in 32-bit wrapping arithmetic: each
/// coordinate is widened to 32 bits, subtracted, squared and summed, every
/// step modulo 2^32.
pub fn distance_squared(p1: Point3D, p2: Point3D) -> (d: u32)
    ensures
        d == distance_sq(p1, p2),
{
    let dx = (p1.x as u32).wrapping_sub(p2.x as u32);
    let dy = (p1.y as u32).wrapping_sub(p2.y as u32);
    let dz = (p1.z as u32).wrapping_sub(p2.z as u32);
    let dx2 = dx.wrapping_mul(dx);
    let dy2 = dy.wrapping_mul(dy);
    let dz2 = dz.wrapping_mul(dz);
    let sxy = dx2.wrapping_add(dy2);
    let s = sxy.wrapping_add(dz2);
    proof {
        let m = word_range();
        lemma_wrapped_square(p1.x, p2.x, dx, dx2);
        lemma_wrapped_square(p1.y, p2.y, dy, dy2);
        lemma_wrapped_square(p1.z, p2.z, dz, dz2);
        let a = square_diff(p1.x, p2.x);
        let b = square_diff(p1.y, p2.y);
        let c = square_diff(p1.z, p2.z);
        lemma_add_mod_noop(a, b, m);
        assert(sxy as int == (dx2 + dy2) % m);
        assert(sxy as int == (a + b) % m);
        lemma_add_mod_noop(a + b, c, m);
        assert(s as int == (sxy + dz2) % m);
    }
    s
}

/// Whether a squared distance is within a squared threshold (inclusive).
pub fn is_within_threshold(dist_sq: u32, threshold_sq: u32) -> (r: bool)
    ensures
        r == (dist_sq <= threshold_sq),
{
    dist_sq <= threshold_sq
}

} // verus!
