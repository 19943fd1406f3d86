//! What stays true of a segment however it is cut: its box holds it, its
//! flags tell the truth, and each of its ends lies on a side of its box.
//! A cut of such a segment always passes through its box.

use vstd::prelude::*;
use vstd::arithmetic::power2::pow2;
use crate::flatten::{lemma_normalization, line_segment, max_abs, norm_shift};
use crate::outline::Vector;
use crate::polyline::{Segment, COORD_LIMIT};
use crate::split::{all_fit, horz_step, split_group, vert_step, Cut};
use crate::utils::lemma_product_bound;

verus! {

/// The value of the line equation of the segment at the point `(x, y)`:
/// zero on the line, and of one sign on each side of it.
pub open spec fn plane(s: Segment, x: int, y: int) -> int {
    s.a * x + s.b * y - s.c
}

/// At height `y` the line lies at `x` or right of it.
pub open spec fn right_of(s: Segment, x: int, y: int) -> bool {
    if s.a >= 0 {
        plane(s, x, y) <= 0
    } else {
        plane(s, x, y) >= 0
    }
}

/// At height `y` the line lies at `x` or left of it.
pub open spec fn left_of(s: Segment, x: int, y: int) -> bool {
    if s.a > 0 {
        plane(s, x, y) >= 0
    } else {
        plane(s, x, y) <= 0
    }
}

/// In column `x` the line lies at `y` or below it.
pub open spec fn below(s: Segment, x: int, y: int) -> bool {
    if s.b >= 0 {
        plane(s, x, y) <= 0
    } else {
        plane(s, x, y) >= 0
    }
}

/// In column `x` the line lies at `y` or above it.
pub open spec fn above(s: Segment, x: int, y: int) -> bool {
    if s.b > 0 {
        plane(s, x, y) >= 0
    } else {
        plane(s, x, y) <= 0
    }
}

/// The segment is sound: its box is not empty, the flag for its slant goes
/// with the signs of its line, a segment along an axis has a flat box, each
/// end of it lies on a side of the box that is marked exact, and the line
/// crosses every side that is marked exact within the box.
pub open spec fn sound(s: Segment) -> bool {
    &&& s.x_min <= s.x_max
    &&& s.y_min <= s.y_max
    &&& s.flags.ul_dr == ((s.b > 0) != (s.a >= 0))
    &&& (s.a == 0 ==> s.y_min == s.y_max)
    &&& (s.b == 0 ==> s.x_min == s.x_max)
    &&& if s.flags.ul_dr {
        (s.flags.exact_left || s.flags.exact_top) && (s.flags.exact_right || s.flags.exact_bottom)
    } else {
        (s.flags.exact_right || s.flags.exact_top) && (s.flags.exact_left || s.flags.exact_bottom)
    }
    &&& (s.flags.exact_top ==> right_of(s, s.x_min as int, s.y_min as int) && left_of(
        s,
        s.x_max as int,
        s.y_min as int,
    ))
    &&& (s.flags.exact_bottom ==> right_of(s, s.x_min as int, s.y_max as int) && left_of(
        s,
        s.x_max as int,
        s.y_max as int,
    ))
    &&& (s.flags.exact_left ==> below(s, s.x_min as int, s.y_min as int) && above(
        s,
        s.x_min as int,
        s.y_max as int,
    ))
    &&& (s.flags.exact_right ==> below(s, s.x_max as int, s.y_min as int) && above(
        s,
        s.x_max as int,
        s.y_max as int,
    ))
}

/// How products with one factor in common are ordered.
pub proof fn lemma_mul_order(a: int, p: int, q: int)
    ensures
        a * (p - q) == a * p - a * q,
        a >= 0 && p <= q ==> a * p <= a * q,
        a <= 0 && p <= q ==> a * p >= a * q,
        a > 0 && p < q ==> a * p < a * q,
        a < 0 && p < q ==> a * p > a * q,
        a >= 0 && q <= p ==> a * q <= a * p,
        a <= 0 && q <= p ==> a * q >= a * p,
        a > 0 && q < p ==> a * q < a * p,
        a < 0 && q < p ==> a * q > a * p,
        a == 0 ==> a * p == 0,
{
    assert(a * (p - q) == a * p - a * q) by (nonlinear_arith);
    assert(a >= 0 && p <= q ==> a * p <= a * q) by (nonlinear_arith);
    assert(a <= 0 && p <= q ==> a * p >= a * q) by (nonlinear_arith);
    assert(a > 0 && p < q ==> a * p < a * q) by (nonlinear_arith);
    assert(a < 0 && p < q ==> a * p > a * q) by (nonlinear_arith);
    assert(a >= 0 && q <= p ==> a * q <= a * p) by (nonlinear_arith);
    assert(a <= 0 && q <= p ==> a * q >= a * p) by (nonlinear_arith);
    assert(a > 0 && q < p ==> a * q < a * p) by (nonlinear_arith);
    assert(a < 0 && q < p ==> a * q > a * p) by (nonlinear_arith);
    assert(a == 0 ==> a * p == 0) by (nonlinear_arith);
}

/// What the checks of a segment say, in terms of its line.
pub proof fn lemma_checks(s: Segment, x: i32)
    ensures
        s.spec_check_left(x) == if s.flags.exact_left {
            s.x_min >= x
        } else {
            right_of(s, x as int, s.pick(s.y_min, s.y_max) as int)
        },
        s.spec_check_right(x) == if s.flags.exact_right {
            s.x_max <= x
        } else {
            left_of(s, x as int, s.pick(s.y_max, s.y_min) as int)
        },
        s.spec_check_top(x) == if s.flags.exact_top {
            s.y_min >= x
        } else {
            below(s, s.pick(s.x_min, s.x_max) as int, x as int)
        },
        s.spec_check_bottom(x) == if s.flags.exact_bottom {
            s.y_max <= x
        } else {
            above(s, s.pick(s.x_max, s.x_min) as int, x as int)
        },
{
}

/// A sound segment that is neither left nor right of a vertical line has
/// the line through its box.
pub proof fn lemma_cut_horz_within(s: Segment, x: i32)
    requires
        sound(s),
        !s.spec_check_right(x),
        !s.spec_check_left(x),
    ensures
        s.x_min < x < s.x_max,
{
    lemma_checks(s, x);
    lemma_mul_order(s.a as int, x as int, s.x_min as int);
    lemma_mul_order(s.a as int, x as int, s.x_max as int);
}

/// A sound segment that is neither above nor below a horizontal line has
/// the line through its box.
pub proof fn lemma_cut_vert_within(s: Segment, y: i32)
    requires
        sound(s),
        !s.spec_check_bottom(y),
        !s.spec_check_top(y),
    ensures
        s.y_min < y < s.y_max,
{
    lemma_checks(s, y);
    lemma_mul_order(s.b as int, y as int, s.y_min as int);
    lemma_mul_order(s.b as int, y as int, s.y_max as int);
}

/// The products that the soundness of the pieces of a segment rests on.
proof fn lemma_products(s: Segment, x: i32, y: i32)
    ensures
        s.a * (s.x_max - x) == s.a * s.x_max - s.a * x,
        s.a * (s.x_min - x) == s.a * s.x_min - s.a * x,
        s.b * (s.y_max - y) == s.b * s.y_max - s.b * y,
        s.b * (s.y_min - y) == s.b * s.y_min - s.b * y,
        s.a * 0 == 0,
        s.b * 0 == 0,
{
    lemma_mul_order(s.a as int, s.x_max as int, x as int);
    lemma_mul_order(s.a as int, s.x_min as int, x as int);
    lemma_mul_order(s.b as int, s.y_max as int, y as int);
    lemma_mul_order(s.b as int, s.y_min as int, y as int);
    assert(s.a * 0 == 0 && s.b * 0 == 0) by (nonlinear_arith);
}

/// How the line of a segment runs between the sides of its box and a cut.
proof fn lemma_orders(s: Segment, x: i32, y: i32)
    ensures
        s.a >= 0 && x <= s.x_max ==> s.a * x <= s.a * s.x_max,
        s.a <= 0 && x <= s.x_max ==> s.a * x >= s.a * s.x_max,
        s.a >= 0 && s.x_min <= x ==> s.a * s.x_min <= s.a * x,
        s.a <= 0 && s.x_min <= x ==> s.a * s.x_min >= s.a * x,
        s.a >= 0 && s.x_max <= x ==> s.a * x >= s.a * s.x_max,
        s.a <= 0 && s.x_max <= x ==> s.a * x <= s.a * s.x_max,
        s.a >= 0 && x <= s.x_min ==> s.a * s.x_min >= s.a * x,
        s.a <= 0 && x <= s.x_min ==> s.a * s.x_min <= s.a * x,
        s.a >= 0 ==> s.a * s.x_min <= s.a * s.x_max || s.x_min > s.x_max,
        s.a <= 0 ==> s.a * s.x_min >= s.a * s.x_max || s.x_min > s.x_max,
        s.b >= 0 && y <= s.y_max ==> s.b * y <= s.b * s.y_max,
        s.b <= 0 && y <= s.y_max ==> s.b * y >= s.b * s.y_max,
        s.b >= 0 && s.y_min <= y ==> s.b * s.y_min <= s.b * y,
        s.b <= 0 && s.y_min <= y ==> s.b * s.y_min >= s.b * y,
        s.b >= 0 && s.y_max <= y ==> s.b * y >= s.b * s.y_max,
        s.b <= 0 && s.y_max <= y ==> s.b * y <= s.b * s.y_max,
        s.b >= 0 && y <= s.y_min ==> s.b * s.y_min >= s.b * y,
        s.b <= 0 && y <= s.y_min ==> s.b * s.y_min <= s.b * y,
        s.b >= 0 ==> s.b * s.y_min <= s.b * s.y_max || s.y_min > s.y_max,
        s.b <= 0 ==> s.b * s.y_min >= s.b * s.y_max || s.y_min > s.y_max,
{
    lemma_mul_order(s.a as int, x as int, s.x_max as int);
    lemma_mul_order(s.a as int, x as int, s.x_min as int);
    lemma_mul_order(s.a as int, s.x_min as int, s.x_max as int);
    lemma_mul_order(s.b as int, y as int, s.y_max as int);
    lemma_mul_order(s.b as int, y as int, s.y_min as int);
    lemma_mul_order(s.b as int, s.y_min as int, s.y_max as int);
}

/// What a cut by a vertical line leaves of a sound segment is sound, and
/// the cut goes well.
pub proof fn lemma_horz_step_sound(s: Segment, x: i32, room_x: int, room_y: int)
    requires
        sound(s),
        0 <= x <= room_x <= COORD_LIMIT,
        0 <= room_y <= COORD_LIMIT,
        s.fits(room_x, room_y),
    ensures
        horz_step(s, x).ok,
        horz_step(s, x).first is Some ==> sound(horz_step(s, x).first->0),
        horz_step(s, x).second is Some ==> sound(horz_step(s, x).second->0),
{
    lemma_checks(s, x);
    lemma_products(s, x, 0);
    lemma_orders(s, x, 0);
    lemma_product_bound(s.a as int, x as int, 0x8000_0000, x as int);
    if s.spec_check_right(x) {
    } else if s.spec_check_left(x) {
        lemma_cut_right_of_left(s, x);
    } else {
        lemma_cut_horz_within(s, x);
    }
}

/// A sound segment that is not left of a vertical line ends right of it.
proof fn lemma_cut_right_of_left(s: Segment, x: i32)
    requires
        sound(s),
        !s.spec_check_right(x),
    ensures
        x < s.x_max,
{
    lemma_checks(s, x);
    lemma_mul_order(s.a as int, x as int, s.x_max as int);
}

/// A sound segment that is not above a horizontal line ends below it.
proof fn lemma_cut_below_top(s: Segment, y: i32)
    requires
        sound(s),
        !s.spec_check_bottom(y),
    ensures
        y < s.y_max,
{
    lemma_checks(s, y);
    lemma_mul_order(s.b as int, y as int, s.y_max as int);
}

/// What a cut by a horizontal line leaves of a sound segment is sound, and
/// the cut goes well.
pub proof fn lemma_vert_step_sound(s: Segment, y: i32, room_x: int, room_y: int)
    requires
        sound(s),
        0 <= y <= room_y <= COORD_LIMIT,
        0 <= room_x <= COORD_LIMIT,
        s.fits(room_x, room_y),
    ensures
        vert_step(s, y).ok,
        vert_step(s, y).first is Some ==> sound(vert_step(s, y).first->0),
        vert_step(s, y).second is Some ==> sound(vert_step(s, y).second->0),
{
    lemma_checks(s, y);
    lemma_products(s, 0, y);
    lemma_orders(s, 0, y);
    lemma_product_bound(s.b as int, y as int, 0x8000_0000, y as int);
    if s.spec_check_bottom(y) {
    } else if s.spec_check_top(y) {
        lemma_cut_below_top(s, y);
    } else {
        lemma_cut_vert_within(s, y);
    }
}

/// Every segment of `s` is sound.
pub open spec fn all_sound(s: Seq<Segment>) -> bool {
    forall|i: int| 0 <= i < s.len() ==> sound(#[trigger] s[i])
}

proof fn lemma_all_sound_push(s: Seq<Segment>, next: Option<Segment>)
    requires
        all_sound(s),
        next is Some ==> sound(next->0),
    ensures
        all_sound(
            match next {
                Some(seg) => s.push(seg),
                None => s,
            },
        ),
{
    match next {
        Some(seg) => {
            assert forall|i: int| 0 <= i < s.push(seg).len() implies sound(
                #[trigger] s.push(seg)[i],
            ) by {
                if i < s.len() {
                    assert(s.push(seg)[i] == s[i]);
                }
            }
        },
        None => {},
    }
}

/// Sound segments put together are sound.
pub proof fn lemma_all_sound_joined(a: Seq<Segment>, b: Seq<Segment>)
    requires
        all_sound(a),
        all_sound(b),
    ensures
        all_sound(a + b),
{
    assert forall|i: int| 0 <= i < (a + b).len() implies sound(#[trigger] (a + b)[i]) by {
        if i < a.len() {
            assert((a + b)[i] == a[i]);
        } else {
            assert((a + b)[i] == b[i - a.len()]);
        }
    }
}

/// The parts of sound segments are sound.
pub proof fn lemma_all_sound_part(s: Seq<Segment>, from: int, to: int)
    requires
        all_sound(s),
        0 <= from <= to <= s.len(),
    ensures
        all_sound(s.subrange(from, to)),
{
    assert forall|i: int| 0 <= i < s.subrange(from, to).len() implies sound(
        #[trigger] s.subrange(from, to)[i],
    ) by {
        assert(s.subrange(from, to)[i] == s[from + i]);
    }
}

/// Cutting a batch of sound segments goes well and leaves sound segments.
pub proof fn lemma_split_group_sound(
    src: Seq<Segment>,
    winding: int,
    cut: Cut,
    room_x: int,
    room_y: int,
)
    requires
        all_sound(src),
        all_fit(src, room_x, room_y),
        0 <= cut.at(),
        0 <= room_x <= COORD_LIMIT,
        0 <= room_y <= COORD_LIMIT,
        cut is Horz ==> cut.at() <= room_x,
        cut is Vert ==> cut.at() <= room_y,
    ensures
        split_group(src, winding, cut).ok,
        all_sound(split_group(src, winding, cut).first),
        all_sound(split_group(src, winding, cut).second),
    decreases src.len(),
{
    if src.len() > 0 {
        let seg = src.last();
        assert(seg == src[src.len() - 1]);
        assert forall|i: int| 0 <= i < src.drop_last().len() implies sound(
            #[trigger] src.drop_last()[i],
        ) && src.drop_last()[i].fits(room_x, room_y) by {
            assert(src.drop_last()[i] == src[i]);
        }
        lemma_split_group_sound(src.drop_last(), winding, cut, room_x, room_y);
        let before = split_group(src.drop_last(), winding, cut);
        match cut {
            Cut::Horz(x) => {
                lemma_horz_step_sound(seg, x, room_x, room_y);
            },
            Cut::Vert(y) => {
                lemma_vert_step_sound(seg, y, room_x, room_y);
            },
        }
        lemma_all_sound_push(before.first, cut.step(seg).first);
        lemma_all_sound_push(before.second, cut.step(seg).second);
    }
}

/// The segment of a line between two points is sound: the line passes
/// through the two corners of its box that are its ends.
pub proof fn lemma_line_sound(pt0: Vector, pt1: Vector)
    requires
        pt0.in_range(),
        pt1.in_range(),
        pt0 != pt1,
    ensures
        sound(line_segment(pt0, pt1)),
        plane(line_segment(pt0, pt1), pt0.x as int, pt0.y as int) == 0,
        plane(line_segment(pt0, pt1), pt1.x as int, pt1.y as int) == 0,
{
    let s = line_segment(pt0, pt1);
    let x = pt1.x - pt0.x;
    let y = pt1.y - pt0.y;
    let f = pow2(norm_shift(max_abs(x, y))) as int;
    lemma_normalization(pt0, pt1);
    assert(s.a == y * f);
    assert(s.b == -x * f);
    assert((y * f) * x + (-x * f) * y == 0) by (nonlinear_arith);
    assert((y * f >= 0) == (y >= 0) && (y * f > 0) == (y > 0) && (-x * f > 0) == (x < 0) && (-x
        * f >= 0) == (x <= 0)) by (nonlinear_arith)
        requires
            f > 0,
    ;
    lemma_mul_order(s.a as int, pt1.x as int, pt0.x as int);
    lemma_mul_order(s.b as int, pt1.y as int, pt0.y as int);
    assert(s.a * pt1.x == s.a * pt0.x + s.a * x) by (nonlinear_arith)
        requires
            x == pt1.x - pt0.x,
    ;
    assert(s.b * pt1.y == s.b * pt0.y + s.b * y) by (nonlinear_arith)
        requires
            y == pt1.y - pt0.y,
    ;
}

} // verus!
