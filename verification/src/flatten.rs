//! From lines and curves to polyline segments.
//!
//! A line becomes one segment: its box, its line equation shifted up to
//! full precision, and the scale that goes with the length of its normal.
//! A curve is cut in halves until its chord stands for it.

use vstd::prelude::*;
use vstd::arithmetic::power2::*;
use vstd::arithmetic::div_mod::*;
use crate::outline::Segment as OutlineShape;
use crate::outline::{abs_int, Outline, Vector};
use crate::polyline::{Segment, SegmentFlags};
use crate::sound::{lemma_line_sound, sound};
use crate::utils::{i64_mul, lemma_product_bound};

verus! {

/// Curves are halved at most this many times in a row before what is left is
/// taken for flat.
pub const MAX_SUBDIVISION_DEPTH: u32 = 32;

pub const SCALE_C1: u32 = 0x5333_3333;

pub const SCALE_C2: u32 = 0x8810_624D;

pub const SCALE_C3: u32 = 0xBBC6_A7EF;

/// The upper 32 bits of the 64-bit product of two 32-bit numbers.
pub open spec fn spec_upper_mul(a: u32, b: u32) -> u32 {
    ((a * b) / 0x1_0000_0000) as u32
}

/// The factor that turns a distance from a normalized line into coverage:
/// a polynomial in `max_ab` that stands for `2^61 / max_ab`.
pub open spec fn spec_scale(max_ab: u32) -> int {
    spec_upper_mul(SCALE_C1, spec_upper_mul(max_ab, max_ab)) + SCALE_C2 - spec_upper_mul(
        SCALE_C3,
        max_ab,
    )
}

proof fn lemma_upper_mul_bounds(a: u32, b: u32)
    ensures
        (a * b) / 0x1_0000_0000 <= a,
        (a * b) / 0x1_0000_0000 <= b,
        0 <= (a * b) / 0x1_0000_0000,
        a * b <= u64::MAX,
{
    assert(0 <= a * b <= a * 0xffff_ffff && a * b <= 0xffff_ffff * b) by (nonlinear_arith)
        requires
            0 <= a <= 0xffff_ffff,
            0 <= b <= 0xffff_ffff,
    ;
}

proof fn lemma_upper_mul_monotone(a: u32, lo: u32, b: u32, hi: u32)
    requires
        lo <= b <= hi,
    ensures
        spec_upper_mul(a, lo) <= spec_upper_mul(a, b) <= spec_upper_mul(a, hi),
{
    lemma_upper_mul_bounds(a, lo);
    lemma_upper_mul_bounds(a, b);
    lemma_upper_mul_bounds(a, hi);
    assert(a * lo <= a * b <= a * hi) by (nonlinear_arith)
        requires
            lo <= b <= hi,
            0 <= a,
    ;
}

proof fn lemma_square_monotone(lo: u32, b: u32, hi: u32)
    requires
        lo <= b <= hi,
    ensures
        spec_upper_mul(lo, lo) <= spec_upper_mul(b, b) <= spec_upper_mul(hi, hi),
{
    lemma_upper_mul_bounds(lo, lo);
    lemma_upper_mul_bounds(b, b);
    lemma_upper_mul_bounds(hi, hi);
    assert(lo * lo <= b * b <= hi * hi) by (nonlinear_arith)
        requires
            0 <= lo <= b <= hi,
    ;
}

/// On `lo ..= hi` the scale is at least what the smallest square and the
/// largest linear term give.
proof fn lemma_scale_lower(m: u32, lo: u32, hi: u32)
    requires
        lo <= m <= hi,
    ensures
        spec_scale(m) >= spec_upper_mul(SCALE_C1, spec_upper_mul(lo, lo)) + SCALE_C2
            - spec_upper_mul(SCALE_C3, hi),
{
    lemma_square_monotone(lo, m, hi);
    lemma_upper_mul_monotone(SCALE_C1, spec_upper_mul(lo, lo), spec_upper_mul(m, m), spec_upper_mul(hi, hi));
    lemma_upper_mul_monotone(SCALE_C3, lo, m, hi);
}

/// The scale is a positive number that fits 32 bits, and 31 bits for a
/// normalized `max_ab`.
pub proof fn lemma_scale_range(m: u32)
    ensures
        0 < spec_scale(m) <= u32::MAX,
        m >= 0x8000_0000 ==> spec_scale(m) < 0x8000_0000,
{
    lemma_upper_mul_bounds(SCALE_C1, spec_upper_mul(m, m));
    lemma_upper_mul_bounds(SCALE_C3, m);
    lemma_upper_mul_bounds(m, m);
    if m < 0x2000_0000 {
        lemma_scale_lower(m, 0, 0x2000_0000);
    } else if m < 0x4000_0000 {
        lemma_scale_lower(m, 0x2000_0000, 0x4000_0000);
    } else if m < 0x6000_0000 {
        lemma_scale_lower(m, 0x4000_0000, 0x6000_0000);
    } else if m < 0x8000_0000 {
        lemma_scale_lower(m, 0x6000_0000, 0x8000_0000);
    } else if m < 0xA000_0000 {
        lemma_scale_lower(m, 0x8000_0000, 0xA000_0000);
    } else if m < 0xC000_0000 {
        lemma_scale_lower(m, 0xA000_0000, 0xC000_0000);
    } else if m < 0xE000_0000 {
        lemma_scale_lower(m, 0xC000_0000, 0xE000_0000);
    } else {
        lemma_scale_lower(m, 0xE000_0000, 0xFFFF_FFFF);
    }
    if m >= 0x8000_0000 {
        lemma_upper_mul_monotone(SCALE_C3, 0x8000_0000, m, m);
    }
}

#[inline]
pub fn upper_mul(a: u32, b: u32) -> (r: u32)
    ensures
        r == spec_upper_mul(a, b),
{
    proof {
        lemma_upper_mul_bounds(a, b);
    }
    (((a as u64) * (b as u64)) / 0x1_0000_0000u64) as u32
}

#[inline]
pub fn compute_scale(max_ab: u32) -> (r: u32)
    ensures
        r == spec_scale(max_ab),
        max_ab >= 0x8000_0000 ==> r < 0x8000_0000,
        0 < r,
{
    proof {
        lemma_scale_range(max_ab);
    }
    let square: u32 = upper_mul(SCALE_C1, upper_mul(max_ab, max_ab));
    let linear: u32 = upper_mul(SCALE_C3, max_ab);
    (((square as u64) + (SCALE_C2 as u64)) - (linear as u64)) as u32
}

/// By how many bits a line whose larger direction component has the
/// magnitude `m` is shifted up: the most that keeps `m` below `2^31`.
pub open spec fn norm_shift(m: int) -> nat
    decreases
            (if m < 0x4000_0000 {
                0x4000_0000 - m
            } else {
                0
            }),
{
    if m <= 0 || m >= 0x4000_0000 {
        0
    } else {
        1 + norm_shift(2 * m)
    }
}

/// The larger of the magnitudes of the two direction components.
pub open spec fn max_abs(x: int, y: int) -> int {
    if abs_int(x) > abs_int(y) {
        abs_int(x)
    } else {
        abs_int(y)
    }
}

/// A magnitude shifted up by its `norm_shift` has bit 30 set and no higher one.
pub proof fn lemma_norm_shift(m: int)
    requires
        1 <= m < 0x8000_0000,
    ensures
        0x4000_0000 <= m * pow2(norm_shift(m)) < 0x8000_0000,
        norm_shift(m) <= 30,
    decreases
            (if m < 0x4000_0000 {
                0x4000_0000 - m
            } else {
                0
            }),
{
    lemma2_to64();
    if m >= 0x4000_0000 {
        assert(norm_shift(m) == 0);
        assert(m * pow2(0) == m) by (nonlinear_arith)
            requires
                pow2(0) == 1,
        ;
    } else {
        let inner = norm_shift(2 * m);
        lemma_norm_shift(2 * m);
        assert(norm_shift(m) == 1 + inner);
        lemma_pow2_unfold(norm_shift(m));
        assert(pow2(norm_shift(m)) == 2 * pow2(inner));
        assert(m * (2 * pow2(inner)) == (2 * m) * pow2(inner)) by (nonlinear_arith);
    }
    let shift = norm_shift(m);
    if shift > 30 {
        if shift > 31 {
            lemma_pow2_strictly_increases(31, shift);
        }
        let p = pow2(shift);
        assert(m * p >= p) by (nonlinear_arith)
            requires
                m >= 1,
                p >= 0,
        ;
    }
}

/// The shift for `m` and the power of two that goes with it.
pub fn normalize(m: u32) -> (r: (u32, u32))
    requires
        1 <= m < 0x8000_0000,
    ensures
        r.0 == norm_shift(m as int),
        r.1 == pow2(norm_shift(m as int)),
        0x4000_0000 <= m * r.1 < 0x8000_0000,
{
    let mut shift: u32 = 0;
    let mut factor: u32 = 1;
    proof {
        lemma2_to64();
        lemma_norm_shift(m as int);
    }
    while (m as u64) * (factor as u64) < 0x4000_0000
        invariant
            1 <= m < 0x8000_0000,
            factor == pow2(shift as nat),
            1 <= m * factor < 0x8000_0000,
            shift <= 30,
            norm_shift(m as int) == shift + norm_shift(m * factor),
            pow2(norm_shift(m as int)) == factor * pow2(norm_shift(m * factor)),
        decreases 30 - shift,
    {
        proof {
            lemma2_to64();
            let cur = m * factor;
            lemma_norm_shift(cur);
            lemma_pow2_unfold((shift + 1) as nat);
            lemma_pow2_unfold(norm_shift(cur));
            assert(m * (factor * 2) == 2 * cur) by (nonlinear_arith)
                requires
                    cur == m * factor,
            ;
            assert(factor * (2 * pow2(norm_shift(2 * cur))) == (factor * 2) * pow2(
                norm_shift(2 * cur),
            )) by (nonlinear_arith);
            assert(factor * 2 <= m * (factor * 2)) by (nonlinear_arith)
                requires
                    m >= 1,
                    factor >= 0,
            ;
            if shift == 30 {
                assert(factor == 0x4000_0000);
                assert(m * factor >= 0x4000_0000) by (nonlinear_arith)
                    requires
                        m >= 1,
                        factor == 0x4000_0000,
                ;
            }
        }
        factor = factor * 2;
        shift = shift + 1;
    }
    proof {
        lemma2_to64();
    }
    (shift, factor)
}

/// The flags of a segment that runs along `(x, y)`: every side of its box is
/// exact, it runs downwards unless `y` is negative, and it joins the upper
/// left and the lower right corner when `x` and `y` have the same sign.
pub open spec fn line_flags(x: int, y: int) -> SegmentFlags {
    SegmentFlags {
        dn: y >= 0,
        ul_dr: (x < 0) != (y >= 0),
        exact_left: true,
        exact_right: true,
        exact_top: true,
        exact_bottom: true,
    }
}

/// The polyline segment for the straight line from `pt0` to another point
/// `pt1`: its exact box, the line through both points as `a * x + b * y = c`
/// with `(a, b)` at a right angle to the direction, shifted up to full
/// precision, and the scale that belongs to the length of `(a, b)`.
pub open spec fn line_segment(pt0: Vector, pt1: Vector) -> Segment {
    let x = pt1.x - pt0.x;
    let y = pt1.y - pt0.y;
    let m = max_abs(x, y);
    let factor = pow2(norm_shift(m)) as int;
    Segment {
        c: ((y * pt0.x - x * pt0.y) * factor) as i64,
        a: (y * factor) as i32,
        b: (-x * factor) as i32,
        scale: spec_scale((2 * m * factor) as u32) as i32,
        flags: line_flags(x, y),
        x_min: if pt0.x < pt1.x { pt0.x } else { pt1.x },
        x_max: if pt0.x > pt1.x { pt0.x } else { pt1.x },
        y_min: if pt0.y < pt1.y { pt0.y } else { pt1.y },
        y_max: if pt0.y > pt1.y { pt0.y } else { pt1.y },
    }
}

/// What a line adds to a polyline: its segment, or nothing where it has no length.
pub open spec fn line_segments(pt0: Vector, pt1: Vector) -> Seq<Segment> {
    if pt0 == pt1 {
        Seq::empty()
    } else {
        seq![line_segment(pt0, pt1)]
    }
}

/// The largest magnitude the offset of a segment of an outline can have.
pub const FRESH_OFFSET_LIMIT: i64 = 0x1000_0000_0000_0000;

/// The segment is as flattening leaves it: its box within the range of
/// outline points and exact on every side, its line normalized, its scale
/// positive, and the whole of it sound.
pub open spec fn fresh(s: Segment) -> bool {
    &&& -Outline::MAX_COORD <= s.x_min <= s.x_max <= Outline::MAX_COORD
    &&& -Outline::MAX_COORD <= s.y_min <= s.y_max <= Outline::MAX_COORD
    &&& -0x8000_0000 < s.a < 0x8000_0000
    &&& -0x8000_0000 < s.b < 0x8000_0000
    &&& 0x4000_0000 <= max_abs(s.a as int, s.b as int)
    &&& -FRESH_OFFSET_LIMIT <= s.c <= FRESH_OFFSET_LIMIT
    &&& 0 < s.scale
    &&& s.flags.exact_left
    &&& s.flags.exact_right
    &&& s.flags.exact_top
    &&& s.flags.exact_bottom
    &&& sound(s)
}

/// Halfplane normalization. For a direction `(dx, dy)` other than zero the
/// line coefficients are `(dy, -dx)` shifted up by `norm_shift`, so the
/// direction is had back by shifting down again; and the larger of their
/// magnitudes, doubled, has the top bit of a 32-bit word set.
pub proof fn lemma_normalization(pt0: Vector, pt1: Vector)
    requires
        pt0.in_range(),
        pt1.in_range(),
        pt0 != pt1,
    ensures
        ({
            let s = line_segment(pt0, pt1);
            let shift = norm_shift(max_abs(pt1.x - pt0.x, pt1.y - pt0.y));
            &&& s.a == (pt1.y - pt0.y) * pow2(shift)
            &&& s.b == -(pt1.x - pt0.x) * pow2(shift)
            &&& s.c == s.a * pt0.x + s.b * pt0.y
            &&& s.c == ((pt1.y - pt0.y) * pt0.x - (pt1.x - pt0.x) * pt0.y) * pow2(shift)
            &&& 0x8000_0000 <= 2 * max_abs(pt1.x - pt0.x, pt1.y - pt0.y) * pow2(shift)
                <= 0xffff_ffff
            &&& s.a as int / pow2(shift) as int == pt1.y - pt0.y
            &&& (-s.b) / pow2(shift) as int == pt1.x - pt0.x
            &&& 0x8000_0000 <= 2 * max_abs(s.a as int, s.b as int) <= 0xffff_ffff
            &&& max_abs(s.a as int, s.b as int) == max_abs(pt1.x - pt0.x, pt1.y - pt0.y) * pow2(
                shift,
            )
            &&& -FRESH_OFFSET_LIMIT <= s.c <= FRESH_OFFSET_LIMIT
            &&& 0 < s.scale
            &&& pow2(shift) > 0
        }),
{
    let x = pt1.x - pt0.x;
    let y = pt1.y - pt0.y;
    let m = max_abs(x, y);
    let shift = norm_shift(m);
    let f = pow2(shift) as int;
    lemma_norm_shift(m);
    lemma_pow2_pos(shift);
    lemma_product_bound(y, f, m, f);
    lemma_product_bound(x, f, m, f);
    assert(m * f == f * m) by (nonlinear_arith);
    assert((y * f) / f == y && (x * f) / f == x) by (nonlinear_arith)
        requires
            f > 0,
    ;
    assert(-x * f == -(x * f)) by (nonlinear_arith);
    assert((-x * f) == (-x) * f) by (nonlinear_arith);
    assert(abs_int(y * f) == abs_int(y) * f && abs_int(x * f) == abs_int(x) * f)
        by (nonlinear_arith)
        requires
            f > 0,
    ;
    assert(abs_int(x) <= abs_int(y) ==> abs_int(x) * f <= abs_int(y) * f) by (nonlinear_arith)
        requires
            f > 0,
    ;
    assert(abs_int(x) > abs_int(y) ==> abs_int(x) * f > abs_int(y) * f) by (nonlinear_arith)
        requires
            f > 0,
    ;
    assert((y * pt0.x - x * pt0.y) * f == (y * f) * pt0.x + (-x * f) * pt0.y)
        by (nonlinear_arith);
    lemma_product_bound(y * f, pt0.x as int, 0x8000_0000, 0x1000_0000);
    lemma_product_bound(-x * f, pt0.y as int, 0x8000_0000, 0x1000_0000);
    lemma_scale_range((2 * m * f) as u32);
    assert(2 * m * f == 2 * (m * f)) by (nonlinear_arith);
}

/// The segment for the line from `pt0` to another point `pt1`.
pub fn make_line(pt0: Vector, pt1: Vector) -> (r: Segment)
    requires
        pt0.in_range(),
        pt1.in_range(),
        pt0 != pt1,
    ensures
        r == line_segment(pt0, pt1),
        fresh(r),
{
    let x: i32 = pt1.x - pt0.x;
    let y: i32 = pt1.y - pt0.y;
    let abs_x: u32 = crate::utils::u32_abs(x);
    let abs_y: u32 = crate::utils::u32_abs(y);
    let m: u32 = if abs_x > abs_y { abs_x } else { abs_y };
    let (shift, factor) = normalize(m);
    proof {
        lemma_normalization(pt0, pt1);
        lemma_line_sound(pt0, pt1);
        lemma_product_bound(y as int, factor as int, m as int, factor as int);
        lemma_product_bound(x as int, factor as int, m as int, factor as int);
        lemma_product_bound(y as int, pt0.x as int, 0x2000_0000, 0x1000_0000);
        lemma_product_bound(x as int, pt0.y as int, 0x2000_0000, 0x1000_0000);
        assert(m * factor == factor * m) by (nonlinear_arith);
        assert(-x * factor == (-x) * factor) by (nonlinear_arith);
        assert(2 * m * factor == 2 * (m * factor)) by (nonlinear_arith);
        assert((m * factor) * 2 == 2 * (m * factor)) by (nonlinear_arith);
        assert(factor <= m * factor) by (nonlinear_arith)
            requires
                m >= 1,
                factor >= 0,
        ;
    }
    let f: i32 = factor as i32;
    let base: i64 = i64_mul(y, pt0.x) - i64_mul(x, pt0.y);
    Segment {
        c: base * (f as i64),
        a: y * f,
        b: (-x) * f,
        scale: compute_scale(m * factor * 2) as i32,
        flags: SegmentFlags {
            dn: y >= 0,
            ul_dr: (x < 0) != (y >= 0),
            exact_left: true,
            exact_right: true,
            exact_top: true,
            exact_bottom: true,
        },
        x_min: if pt0.x < pt1.x { pt0.x } else { pt1.x },
        x_max: if pt0.x > pt1.x { pt0.x } else { pt1.x },
        y_min: if pt0.y < pt1.y { pt0.y } else { pt1.y },
        y_max: if pt0.y > pt1.y { pt0.y } else { pt1.y },
    }
}

/// `v` divided by `d`, rounded down.
pub fn floor_div(v: i32, d: i32) -> (r: i32)
    requires
        0 < d,
    ensures
        r == v as int / d as int,
{
    if v >= 0 {
        v / d
    } else {
        // below zero, count down from -1
        let u: i32 = -(v + 1);
        let q: i32 = u / d;
        proof {
            lemma_fundamental_div_mod(u as int, d as int);
            lemma_mod_bound(u as int, d as int);
            let rem = u as int % d as int;
            assert(d * q == q * d) by (nonlinear_arith);
            assert((-q - 1) * d == -(q * d) - d) by (nonlinear_arith);
            lemma_fundamental_div_mod_converse(v as int, d as int, -(q as int) - 1, d - 1 - rem);
        }
        -q - 1
    }
}

/// A chord of a curve with the tolerance that belongs to its length.
#[derive(Debug, Copy, Clone)]
pub struct OutlineSegment {
    /// From the start of the chord to its end.
    pub r: Vector,
    /// The square of the length of `r`.
    pub r2: i64,
    /// The tolerance: the outline error times the larger component of `r`.
    pub er: i64,
}

impl OutlineSegment {
    pub open spec fn spec_new(beg: Vector, end: Vector, outline_error: i32) -> OutlineSegment {
        let x = end.x - beg.x;
        let y = end.y - beg.y;
        OutlineSegment {
            r: Vector { x: x as i32, y: y as i32 },
            r2: (x * x + y * y) as i64,
            er: (outline_error * max_abs(x, y)) as i64,
        }
    }

    /// The control point `pt` of a curve from `beg` along this chord lies too
    /// far off for the chord to stand for the curve: along the chord it falls
    /// before its start or behind its end by more than the tolerance, or
    /// across the chord it is further away than the tolerance.
    pub open spec fn spec_subdivide(self, beg: Vector, pt: Vector) -> bool {
        let x = pt.x - beg.x;
        let y = pt.y - beg.y;
        let pdr = self.r.x * x + self.r.y * y;
        let pcr = self.r.x * y - self.r.y * x;
        pdr < -self.er || pdr > self.r2 + self.er || abs_int(pcr) > self.er
    }

    /// The numbers are those of a chord between two points in range.
    pub open spec fn bounded(self) -> bool {
        &&& -0x2000_0000 <= self.r.x <= 0x2000_0000
        &&& -0x2000_0000 <= self.r.y <= 0x2000_0000
        &&& 0 <= self.r2 <= 0x0800_0000_0000_0000
        &&& -0x1000_0000_0000_0000 <= self.er <= 0x1000_0000_0000_0000
    }

    pub fn new(beg: Vector, end: Vector, outline_error: i32) -> (r: Self)
        requires
            beg.in_range(),
            end.in_range(),
        ensures
            r == Self::spec_new(beg, end, outline_error),
            r.bounded(),
    {
        let x: i32 = end.x - beg.x;
        let y: i32 = end.y - beg.y;
        let abs_x: i32 = if x < 0 { -x } else { x };
        let abs_y: i32 = if y < 0 { -y } else { y };
        let longer: i32 = if abs_x > abs_y { abs_x } else { abs_y };
        proof {
            lemma_product_bound(x as int, x as int, 0x2000_0000, 0x2000_0000);
            lemma_product_bound(y as int, y as int, 0x2000_0000, 0x2000_0000);
            lemma_product_bound(outline_error as int, longer as int, 0x8000_0000, 0x2000_0000);
            assert(x * x >= 0 && y * y >= 0) by (nonlinear_arith);
        }
        OutlineSegment {
            r: Vector { x, y },
            r2: i64_mul(x, x) + i64_mul(y, y),
            er: i64_mul(outline_error, longer),
        }
    }

    pub fn subdivide(&self, beg: Vector, pt: Vector) -> (r: bool)
        requires
            self.bounded(),
            beg.in_range(),
            pt.in_range(),
        ensures
            r == self.spec_subdivide(beg, pt),
    {
        let x: i32 = pt.x - beg.x;
        let y: i32 = pt.y - beg.y;
        proof {
            lemma_product_bound(self.r.x as int, x as int, 0x2000_0000, 0x2000_0000);
            lemma_product_bound(self.r.y as int, y as int, 0x2000_0000, 0x2000_0000);
            lemma_product_bound(self.r.x as int, y as int, 0x2000_0000, 0x2000_0000);
            lemma_product_bound(self.r.y as int, x as int, 0x2000_0000, 0x2000_0000);
        }
        let pdr: i64 = i64_mul(self.r.x, x) + i64_mul(self.r.y, y);
        let pcr: i64 = i64_mul(self.r.x, y) - i64_mul(self.r.y, x);
        let abs_pcr: i64 = if pcr < 0 { -pcr } else { pcr };
        (pdr < -self.er) || (pdr > self.r2 + self.er) || (abs_pcr > self.er)
    }
}

/// The control point `pt` keeps the chord from `beg` to `end` from standing for the curve.
pub open spec fn needs_split(beg: Vector, end: Vector, pt: Vector, outline_error: i32) -> bool {
    OutlineSegment::spec_new(beg, end, outline_error).spec_subdivide(beg, pt)
}

/// The point halfway between two points, rounded down.
pub open spec fn midpoint(p: Vector, q: Vector) -> Vector {
    Vector { x: ((p.x + q.x) / 2) as i32, y: ((p.y + q.y) / 2) as i32 }
}

/// The point of a quadratic curve at its parametric middle, rounded to the nearest.
pub open spec fn quadratic_middle(p0: Vector, p1: Vector, p2: Vector) -> Vector {
    Vector {
        x: ((p0.x + 2 * p1.x + p2.x + 2) / 4) as i32,
        y: ((p0.y + 2 * p1.y + p2.y + 2) / 4) as i32,
    }
}

/// The point of a cubic curve at its parametric middle.
pub open spec fn cubic_middle(p0: Vector, p1: Vector, p2: Vector, p3: Vector) -> Vector {
    Vector {
        x: ((p0.x + 3 * p1.x + 3 * p2.x + p3.x + 3) / 8) as i32,
        y: ((p0.y + 3 * p1.y + 3 * p2.y + p3.y + 3) / 8) as i32,
    }
}

/// The polyline that stands for the quadratic curve with the control points
/// `p0`, `p1`, `p2`: the chord where the curve is flat enough or `depth` is
/// used up, else the polylines of its two halves, cut at the parametric middle.
pub open spec fn flatten_quadratic(
    p0: Vector,
    p1: Vector,
    p2: Vector,
    outline_error: i32,
    depth: nat,
) -> Seq<Segment>
    decreases depth,
{
    if depth == 0 || !needs_split(p0, p2, p1, outline_error) {
        line_segments(p0, p2)
    } else {
        let mid = quadratic_middle(p0, p1, p2);
        flatten_quadratic(p0, midpoint(p0, p1), mid, outline_error, (depth - 1) as nat)
            + flatten_quadratic(mid, midpoint(p1, p2), p2, outline_error, (depth - 1) as nat)
    }
}

/// The polyline that stands for the cubic curve with the control points
/// `p0` to `p3`: the chord where the curve is flat enough or `depth` is used
/// up, else the polylines of its two halves, cut at the parametric middle.
pub open spec fn flatten_cubic(
    p0: Vector,
    p1: Vector,
    p2: Vector,
    p3: Vector,
    outline_error: i32,
    depth: nat,
) -> Seq<Segment>
    decreases depth,
{
    if depth == 0 || !(needs_split(p0, p3, p1, outline_error) || needs_split(
        p0,
        p3,
        p2,
        outline_error,
    )) {
        line_segments(p0, p3)
    } else {
        let mid = cubic_middle(p0, p1, p2, p3);
        flatten_cubic(
            p0,
            midpoint(p0, p1),
            quadratic_middle(p0, p1, p2),
            mid,
            outline_error,
            (depth - 1) as nat,
        ) + flatten_cubic(
            mid,
            quadratic_middle(p1, p2, p3),
            midpoint(p2, p3),
            p3,
            outline_error,
            (depth - 1) as nat,
        )
    }
}

/// The polyline that stands for one segment of an outline.
pub open spec fn flatten_shape(shape: OutlineShape, outline_error: i32) -> Seq<Segment> {
    match shape {
        OutlineShape::LineSegment(p0, p1) => line_segments(p0, p1),
        OutlineShape::QuadSpline(p0, p1, p2) => flatten_quadratic(
            p0,
            p1,
            p2,
            outline_error,
            MAX_SUBDIVISION_DEPTH as nat,
        ),
        OutlineShape::CubicSpline(p0, p1, p2, p3) => flatten_cubic(
            p0,
            p1,
            p2,
            p3,
            outline_error,
            MAX_SUBDIVISION_DEPTH as nat,
        ),
    }
}

/// The polyline that stands for the segments of an outline, one after another.
pub open spec fn flatten_shapes(shapes: Seq<OutlineShape>, outline_error: i32) -> Seq<Segment>
    decreases shapes.len(),
{
    if shapes.len() == 0 {
        Seq::empty()
    } else {
        flatten_shapes(shapes.drop_last(), outline_error) + flatten_shape(
            shapes.last(),
            outline_error,
        )
    }
}

/// Every segment of `s` is as flattening leaves it.
pub open spec fn all_fresh(s: Seq<Segment>) -> bool {
    forall|i: int| 0 <= i < s.len() ==> fresh(#[trigger] s[i])
}

/// Appends the segment of the line from `pt0` to `pt1`, if the line has a length.
pub fn push_line(lines: &mut Vec<Segment>, pt0: Vector, pt1: Vector)
    requires
        pt0.in_range(),
        pt1.in_range(),
    ensures
        final(lines)@ == old(lines)@ + line_segments(pt0, pt1),
        all_fresh(old(lines)@) ==> all_fresh(final(lines)@),
{
    if pt0.x == pt1.x && pt0.y == pt1.y {
        assert(old(lines)@ + line_segments(pt0, pt1) =~= old(lines)@);
        return ;
    }
    let line: Segment = make_line(pt0, pt1);
    lines.push(line);
    assert(final(lines)@ =~= old(lines)@ + line_segments(pt0, pt1));
}

/// The point halfway between two points in range.
fn halfway(p: Vector, q: Vector) -> (r: Vector)
    requires
        p.in_range(),
        q.in_range(),
    ensures
        r == midpoint(p, q),
        r.in_range(),
{
    Vector { x: floor_div(p.x + q.x, 2), y: floor_div(p.y + q.y, 2) }
}

/// The middle of a quadratic curve with control points in range.
fn middle_of_three(p0: Vector, p1: Vector, p2: Vector) -> (r: Vector)
    requires
        p0.in_range(),
        p1.in_range(),
        p2.in_range(),
    ensures
        r == quadratic_middle(p0, p1, p2),
        r.in_range(),
{
    Vector {
        x: floor_div(p0.x + p1.x + (p1.x + p2.x) + 2, 4),
        y: floor_div(p0.y + p1.y + (p1.y + p2.y) + 2, 4),
    }
}

/// The middle of a cubic curve with control points in range.
fn middle_of_four(p0: Vector, p1: Vector, p2: Vector, p3: Vector) -> (r: Vector)
    requires
        p0.in_range(),
        p1.in_range(),
        p2.in_range(),
        p3.in_range(),
    ensures
        r == cubic_middle(p0, p1, p2, p3),
        r.in_range(),
{
    let cx: i32 = p1.x + p2.x + 2;
    let cy: i32 = p1.y + p2.y + 2;
    Vector {
        x: floor_div(p0.x + p1.x + cx + (cx + (p2.x + p3.x)) - 1, 8),
        y: floor_div(p0.y + p1.y + cy + (cy + (p2.y + p3.y)) - 1, 8),
    }
}

/// Appends the polyline of a quadratic curve.
pub fn push_quadratic(
    lines: &mut Vec<Segment>,
    p0: Vector,
    p1: Vector,
    p2: Vector,
    outline_error: i32,
    depth: u32,
)
    requires
        p0.in_range(),
        p1.in_range(),
        p2.in_range(),
    ensures
        final(lines)@ == old(lines)@ + flatten_quadratic(p0, p1, p2, outline_error, depth as nat),
        all_fresh(old(lines)@) ==> all_fresh(final(lines)@),
    decreases depth,
{
    let seg: OutlineSegment = OutlineSegment::new(p0, p2, outline_error);
    if depth == 0 || !seg.subdivide(p0, p1) {
        push_line(lines, p0, p2);
        return ;
    }
    let n1: Vector = halfway(p0, p1);
    let n3: Vector = halfway(p1, p2);
    let n2: Vector = middle_of_three(p0, p1, p2);
    push_quadratic(lines, p0, n1, n2, outline_error, depth - 1);
    push_quadratic(lines, n2, n3, p2, outline_error, depth - 1);
    proof {
        let first = flatten_quadratic(p0, n1, n2, outline_error, (depth - 1) as nat);
        let second = flatten_quadratic(n2, n3, p2, outline_error, (depth - 1) as nat);
        assert((old(lines)@ + first) + second =~= old(lines)@ + (first + second));
    }
}

/// Appends the polyline of a cubic curve.
pub fn push_cubic(
    lines: &mut Vec<Segment>,
    p0: Vector,
    p1: Vector,
    p2: Vector,
    p3: Vector,
    outline_error: i32,
    depth: u32,
)
    requires
        p0.in_range(),
        p1.in_range(),
        p2.in_range(),
        p3.in_range(),
    ensures
        final(lines)@ == old(lines)@ + flatten_cubic(
            p0,
            p1,
            p2,
            p3,
            outline_error,
            depth as nat,
        ),
        all_fresh(old(lines)@) ==> all_fresh(final(lines)@),
    decreases depth,
{
    let seg: OutlineSegment = OutlineSegment::new(p0, p3, outline_error);
    if depth == 0 || !(seg.subdivide(p0, p1) || seg.subdivide(p0, p2)) {
        push_line(lines, p0, p3);
        return ;
    }
    let n1: Vector = halfway(p0, p1);
    let n2: Vector = middle_of_three(p0, p1, p2);
    let n3: Vector = middle_of_four(p0, p1, p2, p3);
    let n4: Vector = middle_of_three(p1, p2, p3);
    let n5: Vector = halfway(p2, p3);
    push_cubic(lines, p0, n1, n2, n3, outline_error, depth - 1);
    push_cubic(lines, n3, n4, n5, p3, outline_error, depth - 1);
    proof {
        let first = flatten_cubic(p0, n1, n2, n3, outline_error, (depth - 1) as nat);
        let second = flatten_cubic(n3, n4, n5, p3, outline_error, (depth - 1) as nat);
        assert((old(lines)@ + first) + second =~= old(lines)@ + (first + second));
    }
}

/// A degenerate curve is a line. Where the control point of a quadratic
/// curve lies on its chord, between the two ends, the curve is flat whatever
/// the tolerance, so not cut, and its polyline is that of the line between
/// its ends.
pub proof fn lemma_colinear_quadratic_is_line(
    p0: Vector,
    p1: Vector,
    p2: Vector,
    outline_error: i32,
    depth: nat,
)
    requires
        p0.in_range(),
        p1.in_range(),
        p2.in_range(),
        outline_error >= 0,
        (p2.x - p0.x) * (p1.y - p0.y) - (p2.y - p0.y) * (p1.x - p0.x) == 0,
        0 <= (p2.x - p0.x) * (p1.x - p0.x) + (p2.y - p0.y) * (p1.y - p0.y),
        (p2.x - p0.x) * (p1.x - p0.x) + (p2.y - p0.y) * (p1.y - p0.y) <= (p2.x - p0.x) * (p2.x
            - p0.x) + (p2.y - p0.y) * (p2.y - p0.y),
    ensures
        !needs_split(p0, p2, p1, outline_error),
        flatten_quadratic(p0, p1, p2, outline_error, depth) == line_segments(p0, p2),
{
    let x = p2.x - p0.x;
    let y = p2.y - p0.y;
    lemma_product_bound(x, x, 0x2000_0000, 0x2000_0000);
    lemma_product_bound(y, y, 0x2000_0000, 0x2000_0000);
    lemma_product_bound(outline_error as int, max_abs(x, y), 0x8000_0000, 0x2000_0000);
    assert(outline_error * max_abs(x, y) >= 0) by (nonlinear_arith)
        requires
            outline_error >= 0,
            max_abs(x, y) >= 0,
    ;
    assert(x * x >= 0 && y * y >= 0) by (nonlinear_arith);
}

} // verus!
