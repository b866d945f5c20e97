//! Integer axis-aligned bounding boxes and 2-D vectors.
//!
//! All canvas geometry uses exact integer coordinates in the symmetric range
//! `[-COORD_LIMIT, COORD_LIMIT]`, chosen so that the products formed by the
//! affine group-resize map fit in machine words. The module offers
//! containment, intersection, union (`merge`), translation, and the per-axis
//! affine map that carries one box onto another, together with the lemmas
//! (monotonicity, endpoint exactness, commutation with `merge`) that the
//! selection engine's invariant proofs rest on.

use vstd::prelude::*;

verus! {

use vstd::arithmetic::div_mod::{
    lemma_div_is_ordered, lemma_div_multiples_vanish, lemma_div_pos_is_pos, lemma_div_of0,
};
use vstd::arithmetic::mul::lemma_mul_inequality;

/// Largest coordinate magnitude the canvas accepts (2^30). Keeping every
/// coordinate within this bound lets the resize map multiply a coordinate
/// difference (at most 2^31) by an extent (at most 2^31) without overflowing
/// a 64-bit word.
pub const COORD_LIMIT: i64 = 1073741824;

/// A coordinate the canvas accepts.
pub open spec fn coord_ok(c: int) -> bool {
    -(COORD_LIMIT as int) <= c <= COORD_LIMIT as int
}

/// A 2-D offset in canvas units.
#[derive(Clone, Copy, Debug, PartialEq, Eq, Structural)]
pub struct Vec2 {
    pub x: i64,
    pub y: i64,
}

/// Both offset components are within the coordinate range.
pub open spec fn vec2_ok(v: Vec2) -> bool {
    coord_ok(v.x as int) && coord_ok(v.y as int)
}

impl Vec2 {
    pub fn new(x: i64, y: i64) -> (r: Vec2)
        ensures
            r.x == x,
            r.y == y,
    {
        Vec2 { x, y }
    }

    /// The componentwise negation, used to undo a translation.
    pub fn neg(&self) -> (r: Vec2)
        requires
            vec2_ok(*self),
        ensures
            r.x as int == -(self.x as int),
            r.y as int == -(self.y as int),
            vec2_ok(r),
    {
        Vec2 { x: -self.x, y: -self.y }
    }
}

/// An axis-aligned bounding box given by its two corners.
#[derive(Clone, Copy, Debug, PartialEq, Eq, Structural)]
pub struct Aabb {
    pub min_x: i64,
    pub min_y: i64,
    pub max_x: i64,
    pub max_y: i64,
}

/// A well-formed box: corners ordered and within the coordinate range.
pub open spec fn aabb_wf(b: Aabb) -> bool {
    &&& coord_ok(b.min_x as int)
    &&& coord_ok(b.min_y as int)
    &&& coord_ok(b.max_x as int)
    &&& coord_ok(b.max_y as int)
    &&& b.min_x <= b.max_x
    &&& b.min_y <= b.max_y
}

/// `outer` contains all of `inner` (borders included).
pub open spec fn spec_contains(outer: Aabb, inner: Aabb) -> bool {
    &&& outer.min_x <= inner.min_x
    &&& outer.min_y <= inner.min_y
    &&& inner.max_x <= outer.max_x
    &&& inner.max_y <= outer.max_y
}

/// The two boxes share at least one point (borders included).
pub open spec fn spec_intersects(a: Aabb, b: Aabb) -> bool {
    &&& a.min_x <= b.max_x
    &&& b.min_x <= a.max_x
    &&& a.min_y <= b.max_y
    &&& b.min_y <= a.max_y
}

/// The smallest box containing both arguments.
pub open spec fn spec_merge(a: Aabb, b: Aabb) -> Aabb {
    Aabb {
        min_x: if a.min_x <= b.min_x { a.min_x } else { b.min_x },
        min_y: if a.min_y <= b.min_y { a.min_y } else { b.min_y },
        max_x: if a.max_x >= b.max_x { a.max_x } else { b.max_x },
        max_y: if a.max_y >= b.max_y { a.max_y } else { b.max_y },
    }
}

/// The box shifted by `v`. Meaningful when the shifted corners are again
/// coordinates the canvas accepts; see [`can_translate`].
pub open spec fn spec_translate(b: Aabb, v: Vec2) -> Aabb {
    Aabb {
        min_x: (b.min_x + v.x) as i64,
        min_y: (b.min_y + v.y) as i64,
        max_x: (b.max_x + v.x) as i64,
        max_y: (b.max_y + v.y) as i64,
    }
}

/// The shifted corners stay within the coordinate range.
pub open spec fn can_translate(b: Aabb, v: Vec2) -> bool {
    &&& coord_ok(b.min_x + v.x)
    &&& coord_ok(b.min_y + v.y)
    &&& coord_ok(b.max_x + v.x)
    &&& coord_ok(b.max_y + v.y)
}

impl Aabb {
    pub fn new(min_x: i64, min_y: i64, max_x: i64, max_y: i64) -> (r: Aabb)
        ensures
            r == (Aabb { min_x, min_y, max_x, max_y }),
    {
        Aabb { min_x, min_y, max_x, max_y }
    }

    /// Whether `self` contains all of `other`.
    pub fn contains(&self, other: &Aabb) -> (r: bool)
        ensures
            r == spec_contains(*self, *other),
    {
        self.min_x <= other.min_x && self.min_y <= other.min_y && other.max_x <= self.max_x
            && other.max_y <= self.max_y
    }

    /// Whether `self` and `other` share at least one point.
    pub fn intersects(&self, other: &Aabb) -> (r: bool)
        ensures
            r == spec_intersects(*self, *other),
    {
        self.min_x <= other.max_x && other.min_x <= self.max_x && self.min_y <= other.max_y
            && other.min_y <= self.max_y
    }

    /// The smallest box containing both `self` and `other`.
    pub fn merge(&self, other: &Aabb) -> (r: Aabb)
        ensures
            r == spec_merge(*self, *other),
    {
        Aabb {
            min_x: if self.min_x <= other.min_x { self.min_x } else { other.min_x },
            min_y: if self.min_y <= other.min_y { self.min_y } else { other.min_y },
            max_x: if self.max_x >= other.max_x { self.max_x } else { other.max_x },
            max_y: if self.max_y >= other.max_y { self.max_y } else { other.max_y },
        }
    }

    /// The box shifted by `v`.
    pub fn translate(&self, v: Vec2) -> (r: Aabb)
        requires
            can_translate(*self, v),
        ensures
            r == spec_translate(*self, v),
    {
        Aabb {
            min_x: self.min_x + v.x,
            min_y: self.min_y + v.y,
            max_x: self.max_x + v.x,
            max_y: self.max_y + v.y,
        }
    }

    /// The width of the box.
    pub fn extent_x(&self) -> (r: i64)
        requires
            aabb_wf(*self),
        ensures
            r as int == self.max_x - self.min_x,
            r >= 0,
    {
        self.max_x - self.min_x
    }

    /// The height of the box.
    pub fn extent_y(&self) -> (r: i64)
        requires
            aabb_wf(*self),
        ensures
            r as int == self.max_y - self.min_y,
            r >= 0,
    {
        self.max_y - self.min_y
    }
}

/// A merge of well-formed boxes is well-formed and contains both.
pub proof fn lemma_merge_wf(a: Aabb, b: Aabb)
    requires
        aabb_wf(a),
        aabb_wf(b),
    ensures
        aabb_wf(spec_merge(a, b)),
        spec_contains(spec_merge(a, b), a),
        spec_contains(spec_merge(a, b), b),
{
}

/// Translation distributes over merge.
pub proof fn lemma_merge_translate(a: Aabb, b: Aabb, v: Vec2)
    requires
        can_translate(a, v),
        can_translate(b, v),
    ensures
        spec_translate(spec_merge(a, b), v) == spec_merge(spec_translate(a, v), spec_translate(b, v)),
{
}

/// Translating by `v` and then by its negation restores the box.
pub proof fn lemma_translate_roundtrip(b: Aabb, v: Vec2, w: Vec2)
    requires
        can_translate(b, v),
        w.x as int == -(v.x as int),
        w.y as int == -(v.y as int),
        coord_ok(b.min_x as int),
        coord_ok(b.min_y as int),
        coord_ok(b.max_x as int),
        coord_ok(b.max_y as int),
    ensures
        spec_translate(spec_translate(b, v), w) == b,
{
}

/// The affine map of one coordinate axis that carries the source interval
/// `[smin, smax]` onto the destination interval `[dmin, dmax]`: the offset
/// within the source is rescaled by the ratio of the extents, rounding the
/// result toward the destination minimum. A degenerate source axis
/// (`smin == smax`) leaves no ratio to rescale by; the map then keeps the
/// coordinate's offset and only moves it with the interval, the documented
/// scale-one fallback.
pub open spec fn map_axis(c: int, smin: int, smax: int, dmin: int, dmax: int) -> int {
    if smin == smax {
        c + (dmin - smin)
    } else {
        dmin + (c - smin) * (dmax - dmin) / (smax - smin)
    }
}

/// The map is monotone in the coordinate.
pub proof fn lemma_map_axis_mono(c1: int, c2: int, smin: int, smax: int, dmin: int, dmax: int)
    requires
        c1 <= c2,
        smin <= smax,
        dmin <= dmax,
    ensures
        map_axis(c1, smin, smax, dmin, dmax) <= map_axis(c2, smin, smax, dmin, dmax),
{
    if smin < smax {
        lemma_mul_inequality(c1 - smin, c2 - smin, dmax - dmin);
        lemma_div_is_ordered((c1 - smin) * (dmax - dmin), (c2 - smin) * (dmax - dmin), smax - smin);
    }
}

/// A coordinate inside the source interval maps inside the destination
/// interval; the source endpoints map exactly onto the destination endpoints
/// when the source axis is not degenerate.
pub proof fn lemma_map_axis_bounds(c: int, smin: int, smax: int, dmin: int, dmax: int)
    requires
        smin <= c <= smax,
        smin <= smax,
        dmin <= dmax,
    ensures
        dmin <= map_axis(c, smin, smax, dmin, dmax) <= dmax,
        smin < smax ==> map_axis(smin, smin, smax, dmin, dmax) == dmin,
        smin < smax ==> map_axis(smax, smin, smax, dmin, dmax) == dmax,
{
    if smin < smax {
        let sext = smax - smin;
        let dext = dmax - dmin;
        lemma_div_of0(sext);
        assert((smin - smin) * dext == 0);
        lemma_div_multiples_vanish(dext, sext);
        assert((smax - smin) * dext == sext * dext);
        lemma_div_pos_is_pos((c - smin) * dext, sext);
        lemma_mul_inequality(c - smin, sext, dext);
        lemma_div_is_ordered((c - smin) * dext, sext * dext, sext);
        vstd::arithmetic::mul::lemma_mul_nonnegative(c - smin, dext);
    }
}

/// The map commutes with taking the smaller (and the larger) of two
/// coordinates, because it is monotone.
pub proof fn lemma_map_axis_min_max(c1: int, c2: int, smin: int, smax: int, dmin: int, dmax: int)
    requires
        smin <= smax,
        dmin <= dmax,
    ensures
        map_axis(if c1 <= c2 { c1 } else { c2 }, smin, smax, dmin, dmax)
            == if map_axis(c1, smin, smax, dmin, dmax) <= map_axis(c2, smin, smax, dmin, dmax) {
                map_axis(c1, smin, smax, dmin, dmax)
            } else {
                map_axis(c2, smin, smax, dmin, dmax)
            },
        map_axis(if c1 >= c2 { c1 } else { c2 }, smin, smax, dmin, dmax)
            == if map_axis(c1, smin, smax, dmin, dmax) >= map_axis(c2, smin, smax, dmin, dmax) {
                map_axis(c1, smin, smax, dmin, dmax)
            } else {
                map_axis(c2, smin, smax, dmin, dmax)
            },
{
    if c1 <= c2 {
        lemma_map_axis_mono(c1, c2, smin, smax, dmin, dmax);
    } else {
        lemma_map_axis_mono(c2, c1, smin, smax, dmin, dmax);
    }
}

/// `r` is `b` carried by the per-axis affine map from `src` onto `dst`.
pub open spec fn is_mapped_aabb(src: Aabb, dst: Aabb, b: Aabb, r: Aabb) -> bool {
    &&& r.min_x as int == map_axis(b.min_x as int, src.min_x as int, src.max_x as int, dst.min_x as int, dst.max_x as int)
    &&& r.min_y as int == map_axis(b.min_y as int, src.min_y as int, src.max_y as int, dst.min_y as int, dst.max_y as int)
    &&& r.max_x as int == map_axis(b.max_x as int, src.min_x as int, src.max_x as int, dst.min_x as int, dst.max_x as int)
    &&& r.max_y as int == map_axis(b.max_y as int, src.min_y as int, src.max_y as int, dst.min_y as int, dst.max_y as int)
}

/// The affine map distributes over merge: mapping the union of two boxes
/// gives the union of the mapped boxes.
pub proof fn lemma_mapped_merge(src: Aabb, dst: Aabb, a: Aabb, b: Aabb, ra: Aabb, rb: Aabb)
    requires
        aabb_wf(src),
        aabb_wf(dst),
        is_mapped_aabb(src, dst, a, ra),
        is_mapped_aabb(src, dst, b, rb),
    ensures
        is_mapped_aabb(src, dst, spec_merge(a, b), spec_merge(ra, rb)),
{
    lemma_map_axis_min_max(a.min_x as int, b.min_x as int, src.min_x as int, src.max_x as int, dst.min_x as int, dst.max_x as int);
    lemma_map_axis_min_max(a.min_y as int, b.min_y as int, src.min_y as int, src.max_y as int, dst.min_y as int, dst.max_y as int);
    lemma_map_axis_min_max(a.max_x as int, b.max_x as int, src.min_x as int, src.max_x as int, dst.min_x as int, dst.max_x as int);
    lemma_map_axis_min_max(a.max_y as int, b.max_y as int, src.min_y as int, src.max_y as int, dst.min_y as int, dst.max_y as int);
}

/// Mapping a non-degenerate source box onto the destination gives exactly
/// the destination.
pub proof fn lemma_mapped_src_is_dst(src: Aabb, dst: Aabb, r: Aabb)
    requires
        aabb_wf(src),
        aabb_wf(dst),
        src.min_x < src.max_x,
        src.min_y < src.max_y,
        is_mapped_aabb(src, dst, src, r),
    ensures
        r == dst,
{
    lemma_map_axis_bounds(src.min_x as int, src.min_x as int, src.max_x as int, dst.min_x as int, dst.max_x as int);
    lemma_map_axis_bounds(src.min_y as int, src.min_y as int, src.max_y as int, dst.min_y as int, dst.max_y as int);
    lemma_map_axis_bounds(src.max_x as int, src.min_x as int, src.max_x as int, dst.min_x as int, dst.max_x as int);
    lemma_map_axis_bounds(src.max_y as int, src.min_y as int, src.max_y as int, dst.min_y as int, dst.max_y as int);
}

/// One coordinate carried by the affine map from `[smin, smax]` onto
/// `[dmin, dmax]`. The products are formed in unsigned 64-bit words, which
/// the coordinate range keeps free of overflow.
pub fn map_coord(c: i64, smin: i64, smax: i64, dmin: i64, dmax: i64) -> (r: i64)
    requires
        coord_ok(smin as int),
        coord_ok(smax as int),
        coord_ok(dmin as int),
        coord_ok(dmax as int),
        smin <= c <= smax,
        dmin <= dmax,
    ensures
        r as int == map_axis(c as int, smin as int, smax as int, dmin as int, dmax as int),
        dmin <= r <= dmax,
{
    if smin == smax {
        proof {
            assert(c == smin);
        }
        dmin
    } else {
        let diff: u64 = (c - smin) as u64;
        let sext: u64 = (smax - smin) as u64;
        let dext: u64 = (dmax - dmin) as u64;
        proof {
            lemma_map_axis_bounds(c as int, smin as int, smax as int, dmin as int, dmax as int);
            vstd::arithmetic::mul::lemma_mul_upper_bound(
                diff as int,
                2 * COORD_LIMIT as int,
                dext as int,
                2 * COORD_LIMIT as int,
            );
            vstd::arithmetic::mul::lemma_mul_nonnegative(diff as int, dext as int);
        }
        let q: u64 = diff * dext / sext;
        proof {
            lemma_mul_inequality(diff as int, sext as int, dext as int);
            lemma_div_is_ordered(diff as int * dext as int, sext as int * dext as int, sext as int);
            lemma_div_multiples_vanish(dext as int, sext as int);
            lemma_div_pos_is_pos(diff as int * dext as int, sext as int);
        }
        dmin + (q as i64)
    }
}

/// The box `b` carried by the affine map from `src` onto `dst`.
pub fn map_aabb(src: &Aabb, dst: &Aabb, b: &Aabb) -> (r: Aabb)
    requires
        aabb_wf(*src),
        aabb_wf(*dst),
        aabb_wf(*b),
        spec_contains(*src, *b),
    ensures
        is_mapped_aabb(*src, *dst, *b, r),
        aabb_wf(r),
        spec_contains(*dst, r),
{
    let min_x = map_coord(b.min_x, src.min_x, src.max_x, dst.min_x, dst.max_x);
    let max_x = map_coord(b.max_x, src.min_x, src.max_x, dst.min_x, dst.max_x);
    let min_y = map_coord(b.min_y, src.min_y, src.max_y, dst.min_y, dst.max_y);
    let max_y = map_coord(b.max_y, src.min_y, src.max_y, dst.min_y, dst.max_y);
    proof {
        lemma_map_axis_mono(b.min_x as int, b.max_x as int, src.min_x as int, src.max_x as int, dst.min_x as int, dst.max_x as int);
        lemma_map_axis_mono(b.min_y as int, b.max_y as int, src.min_y as int, src.max_y as int, dst.min_y as int, dst.max_y as int);
    }
    Aabb { min_x, min_y, max_x, max_y }
}

/// When the rescaled offset divides evenly, the mapped coordinate stands in
/// exactly the same ratio to the destination interval as the original
/// coordinate does to the source interval.
pub proof fn lemma_map_axis_exact_ratio(c: int, smin: int, smax: int, dmin: int, dmax: int)
    requires
        smin < smax,
        dmin <= dmax,
        (c - smin) * (dmax - dmin) % (smax - smin) == 0,
    ensures
        (map_axis(c, smin, smax, dmin, dmax) - dmin) * (smax - smin) == (c - smin) * (dmax - dmin),
{
    let sext = smax - smin;
    let dext = dmax - dmin;
    let p = (c - smin) * dext;
    vstd::arithmetic::div_mod::lemma_fundamental_div_mod(p, sext);
    vstd::arithmetic::mul::lemma_mul_is_commutative(sext, p / sext);
}

} // verus!
