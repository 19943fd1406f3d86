//! What a filled canvas holds: the model that the rasterizer is held to.
//!
//! A canvas is a buffer of bytes, row after row. The model says for each
//! pixel of a rectangle what it becomes, from the segments that cross the
//! rectangle and the winding numbers at its upper left corner.

use vstd::prelude::*;
use vstd::arithmetic::power2::*;
use vstd::arithmetic::div_mod::*;
use crate::bitmap::{BitmapEngine, in_block};
use crate::outline::abs_int;
use crate::polyline::Segment;
use crate::split::{Cut, fill_flags, split_group};

verus! {

/// Byte `i` of a buffer whose rows are `stride` bytes apart belongs to the
/// rectangle of `width` by `height` pixels with its upper left corner at `(left, top)`.
pub open spec fn in_rect(i: int, stride: int, left: int, top: int, width: int, height: int) -> bool {
    &&& 0 <= i
    &&& left <= i % stride < left + width
    &&& top <= i / stride < top + height
}

/// The buffer with one rectangle replaced: the pixel in column `x` of row `y`
/// becomes `pixel(x, y)`, and every byte outside the rectangle stays.
pub open spec fn with_rect(
    buf: Seq<u8>,
    stride: int,
    left: int,
    top: int,
    width: int,
    height: int,
    pixel: spec_fn(int, int) -> u8,
) -> Seq<u8> {
    Seq::new(
        buf.len(),
        |i: int|
            if in_rect(i, stride, left, top, width, height) {
                pixel(i % stride, i / stride)
            } else {
                buf[i]
            },
    )
}

/// The rectangle lies within the first `len` bytes of a buffer.
pub open spec fn rect_fits(len: nat, stride: int, left: int, top: int, width: int, height: int) -> bool {
    &&& 0 <= left
    &&& 0 <= top
    &&& 1 <= width
    &&& 1 <= height
    &&& left + width <= stride
    &&& (top + height - 1) * stride + left + width <= len
}

/// How many pixels a tile of the engine is wide and high.
pub open spec fn tile_size<E: BitmapEngine>(e: &E) -> int {
    pow2(e.spec_tile_order() as nat) as int
}

/// The scale of a segment as it is handed to the engine: turned round where
/// the shape lies on the other side of the segment.
pub open spec fn signed_scale(scale: i32, reverse: bool) -> i32 {
    if reverse {
        (-scale) as i32
    } else {
        scale
    }
}

/// What `fill_solid` is told where the far side of a line is to be painted:
/// the sign bit alone where the tile lies inside, else zero.
pub open spec fn far_side_set(offs_c: int, scale: i32) -> i32 {
    if (offs_c < 0) != (scale < 0) {
        i32::MIN
    } else {
        0
    }
}

/// Pixel `(x, y)` of a rectangle of `width` by `height` pixels that the one
/// line `a * x + b * y = c` parts in two.
///
/// A rectangle of one tile is painted by the engine as it is. A larger one
/// is painted tile by tile: a tile near the line by the engine, with `c`
/// taken to the corner of the tile, and a tile that lies on one side of the
/// line altogether as a solid one.
pub open spec fn halfplane_region_pixel<E: BitmapEngine>(
    e: &E,
    a: i32,
    b: i32,
    c: i64,
    scale: i32,
    width: int,
    height: int,
    x: int,
    y: int,
) -> u8 {
    let ts = tile_size(e);
    if width == ts && height == ts {
        e.halfplane_pixel(a, b, c, scale, x, y)
    } else {
        let cc = c - (a * (x / ts) + b * (y / ts)) * (64 * ts);
        let offs_c = (a + b) * (32 * ts) - cc;
        let size = (abs_int(a as int) + abs_int(b as int)) * (32 * ts);
        if abs_int(offs_c) < size {
            e.halfplane_pixel(a, b, cc as i64, scale, x % ts, y % ts)
        } else {
            e.solid_pixel(far_side_set(offs_c, scale))
        }
    }
}

/// Pixel `(x, y)` of a tile as one batch of segments alone paints it: by
/// all its segments, or by its one segment as a line.
pub open spec fn batch_pixel<E: BitmapEngine>(
    e: &E,
    line: Seq<Segment>,
    winding: int,
    x: int,
    y: int,
) -> u8 {
    let flags = fill_flags(line, winding);
    if flags.generic {
        e.generic_pixel(line, winding as i32, x, y)
    } else {
        e.halfplane_pixel(
            line[0].a,
            line[0].b,
            line[0].c,
            signed_scale(line[0].scale, flags.reverse),
            x,
            y,
        )
    }
}

/// Pixel `(x, y)` of a tile that the borders of the two batches cross.
/// Where only one of them does, that batch paints the tile; where both do,
/// each paints a tile of its own and the two are added up.
pub open spec fn tile_pixel<E: BitmapEngine>(
    e: &E,
    line0: Seq<Segment>,
    line1: Seq<Segment>,
    winding0: int,
    winding1: int,
    x: int,
    y: int,
) -> u8 {
    if !fill_flags(line1, winding1).complex {
        e.generic_pixel(line0, winding0 as i32, x, y)
    } else if !fill_flags(line0, winding0).complex {
        e.generic_pixel(line1, winding1 as i32, x, y)
    } else {
        e.add_pixel(
            batch_pixel(e, line0, winding0, x, y),
            batch_pixel(e, line1, winding1, x, y),
        )
    }
}

/// How a rectangle is painted.
pub enum LevelKind {
    /// Neither batch has anything in it: it is left as it is.
    Blank,
    /// One batch covers it fully.
    Solid,
    /// One segment of one batch parts it, and the other batch has nothing in it.
    Halfplane,
    /// It is one tile, painted by the engine from the segments.
    Tile,
    /// It is cut in two, and each part is painted on its own.
    Split,
}

pub open spec fn level_kind<E: BitmapEngine>(
    e: &E,
    width: int,
    height: int,
    line0: Seq<Segment>,
    line1: Seq<Segment>,
    winding0: int,
    winding1: int,
) -> LevelKind {
    let f0 = fill_flags(line0, winding0);
    let f1 = fill_flags(line1, winding1);
    if f0.solid || f1.solid {
        LevelKind::Solid
    } else if !f0.complex && !f1.complex {
        LevelKind::Blank
    } else if !f0.generic && !f1.generic && f0.complex != f1.complex {
        LevelKind::Halfplane
    } else if width == tile_size(e) && height == tile_size(e) {
        LevelKind::Tile
    } else {
        LevelKind::Split
    }
}

/// The largest power of two below `w`, for a `w` of two or more.
pub open spec fn split_point(w: int) -> int
    decreases w,
{
    if w <= 2 {
        1
    } else {
        2 * split_point((w + 1) / 2)
    }
}

/// A rectangle of `width` by `height` pixels is cut along its longer side,
/// at the largest power of two below the length of that side.
pub open spec fn level_cut(width: int, height: int) -> Cut {
    if width > height {
        Cut::Horz((64 * split_point(width)) as i32)
    } else {
        Cut::Vert((64 * split_point(height)) as i32)
    }
}

/// Pixel `(x, y)` of a rectangle of `width` by `height` pixels that the
/// segments of two batches cross, where the winding numbers of the batches
/// at its upper left corner are `winding0` and `winding1` and the pixel was
/// `prev` before.
#[verifier::opaque]
pub open spec fn level_pixel<E: BitmapEngine>(
    e: &E,
    prev: u8,
    width: int,
    height: int,
    line0: Seq<Segment>,
    line1: Seq<Segment>,
    winding0: int,
    winding1: int,
    x: int,
    y: int,
) -> u8
    decreases width + height,
{
    match level_kind(e, width, height, line0, line1, winding0, winding1) {
        LevelKind::Blank => prev,
        LevelKind::Solid => e.solid_pixel(1),
        LevelKind::Halfplane => {
            let l = if fill_flags(line1, winding1).complex {
                line1[0]
            } else {
                line0[0]
            };
            let reverse = fill_flags(line0, winding0).reverse || fill_flags(
                line1,
                winding1,
            ).reverse;
            halfplane_region_pixel(
                e,
                l.a,
                l.b,
                l.c,
                signed_scale(l.scale, reverse),
                width,
                height,
                x,
                y,
            )
        },
        LevelKind::Tile => tile_pixel(e, line0, line1, winding0, winding1, x, y),
        LevelKind::Split => {
            let cut = level_cut(width, height);
            let g0 = split_group(line0, winding0, cut);
            let g1 = split_group(line1, winding1, cut);
            if width > height {
                let p = split_point(width);
                if 0 < p < width && 0 < height {
                    if x < p {
                        level_pixel(e, prev, p, height, g0.first, g1.first, winding0, winding1, x, y)
                    } else {
                        level_pixel(
                            e,
                            prev,
                            width - p,
                            height,
                            g0.second,
                            g1.second,
                            g0.winding,
                            g1.winding,
                            x - p,
                            y,
                        )
                    }
                } else {
                    prev
                }
            } else {
                let p = split_point(height);
                if 0 < p < height && 0 < width {
                    if y < p {
                        level_pixel(e, prev, width, p, g0.first, g1.first, winding0, winding1, x, y)
                    } else {
                        level_pixel(
                            e,
                            prev,
                            width,
                            height - p,
                            g0.second,
                            g1.second,
                            g0.winding,
                            g1.winding,
                            x,
                            y - p,
                        )
                    }
                } else {
                    prev
                }
            }
        },
    }
}

/// The cut of a side of two or more pixels leaves both parts a length, and
/// the second part is no longer than the first.
pub proof fn lemma_split_point(w: int)
    requires
        w >= 2,
    ensures
        0 < split_point(w) < w <= 2 * split_point(w),
    decreases w,
{
    if w > 2 {
        lemma_split_point((w + 1) / 2);
    }
}

/// Replacing a rectangle twice by the same pixels is replacing it once, and
/// what the second replacement sees of the first does not matter.
pub proof fn lemma_rect_same(
    buf: Seq<u8>,
    stride: int,
    left: int,
    top: int,
    width: int,
    height: int,
    f: spec_fn(int, int) -> u8,
    g: spec_fn(int, int) -> u8,
)
    requires
        forall|x: int, y: int|
            left <= x < left + width && top <= y < top + height ==> #[trigger] f(x, y) == g(x, y),
    ensures
        with_rect(buf, stride, left, top, width, height, f) == with_rect(
            buf,
            stride,
            left,
            top,
            width,
            height,
            g,
        ),
{
    assert(with_rect(buf, stride, left, top, width, height, f) =~= with_rect(
        buf,
        stride,
        left,
        top,
        width,
        height,
        g,
    ));
}

/// A rectangle without width or height is no rectangle.
pub proof fn lemma_rect_empty(
    buf: Seq<u8>,
    stride: int,
    left: int,
    top: int,
    width: int,
    height: int,
    f: spec_fn(int, int) -> u8,
)
    requires
        width <= 0 || height <= 0,
    ensures
        with_rect(buf, stride, left, top, width, height, f) == buf,
{
    assert(with_rect(buf, stride, left, top, width, height, f) =~= buf);
}

/// Two rectangles side by side, painted one after the other, are the one
/// rectangle that holds both.
pub proof fn lemma_rect_beside(
    buf: Seq<u8>,
    stride: int,
    left: int,
    top: int,
    width: int,
    more: int,
    height: int,
    f: spec_fn(int, int) -> u8,
)
    requires
        0 <= width,
        0 <= more,
    ensures
        with_rect(
            with_rect(buf, stride, left, top, width, height, f),
            stride,
            left + width,
            top,
            more,
            height,
            f,
        ) == with_rect(buf, stride, left, top, width + more, height, f),
{
    assert(with_rect(
        with_rect(buf, stride, left, top, width, height, f),
        stride,
        left + width,
        top,
        more,
        height,
        f,
    ) =~= with_rect(buf, stride, left, top, width + more, height, f));
}

/// Two rectangles one below the other, painted one after the other, are the
/// one rectangle that holds both.
pub proof fn lemma_rect_below(
    buf: Seq<u8>,
    stride: int,
    left: int,
    top: int,
    width: int,
    height: int,
    more: int,
    f: spec_fn(int, int) -> u8,
)
    requires
        0 <= height,
        0 <= more,
    ensures
        with_rect(
            with_rect(buf, stride, left, top, width, height, f),
            stride,
            left,
            top + height,
            width,
            more,
            f,
        ) == with_rect(buf, stride, left, top, width, height + more, f),
{
    assert(with_rect(
        with_rect(buf, stride, left, top, width, height, f),
        stride,
        left,
        top + height,
        width,
        more,
        f,
    ) =~= with_rect(buf, stride, left, top, width, height + more, f));
}

/// Where byte `i` of a buffer lies, seen from the byte at `(left, top)`:
/// within a block of `width` columns at that byte exactly when within the
/// rectangle of that width at `(left, top)`, and then in the column and row
/// that are `left` and `top` less.
pub proof fn lemma_index_from_corner(i: int, stride: int, left: int, top: int, width: int)
    requires
        0 <= left,
        0 <= top,
        0 <= width,
        left + width <= stride,
        0 < stride,
        0 <= i,
    ensures
        i < top * stride + left ==> !(left <= i % stride && top <= i / stride),
        i >= top * stride + left ==> ({
            let j = i - (top * stride + left);
            &&& (j % stride < width) == (left <= i % stride < left + width && top <= i / stride)
            &&& j % stride < width ==> i % stride == left + j % stride && i / stride == top + j
                / stride
        }),
{
    lemma_fundamental_div_mod(i, stride);
    lemma_mod_bound(i, stride);
    let q = i / stride;
    let m = i % stride;
    if i < top * stride + left {
        if left <= m && top <= q {
            assert(stride * q >= stride * top) by (nonlinear_arith)
                requires
                    q >= top,
                    stride > 0,
            ;
            assert(stride * top == top * stride) by (nonlinear_arith);
        }
    } else {
        let j = i - (top * stride + left);
        lemma_fundamental_div_mod(j, stride);
        lemma_mod_bound(j, stride);
        let qj = j / stride;
        let mj = j % stride;
        assert(stride * qj == qj * stride) by (nonlinear_arith);
        if left + mj < stride {
            assert((top + qj) * stride == top * stride + qj * stride) by (nonlinear_arith);
            lemma_fundamental_div_mod_converse(i, stride, top + qj, left + mj);
        } else {
            assert((top + qj + 1) * stride == top * stride + qj * stride + stride)
                by (nonlinear_arith);
            lemma_fundamental_div_mod_converse(i, stride, top + qj + 1, left + mj - stride);
        }
    }
}

/// Painting the block at the start of the tail of a buffer is painting a
/// rectangle of the buffer: the one whose upper left corner is the byte
/// that the tail starts with.
pub proof fn lemma_block_at(
    head: Seq<u8>,
    tail: Seq<u8>,
    painted: Seq<u8>,
    stride: int,
    left: int,
    top: int,
    width: int,
    height: int,
    pixel: spec_fn(int, int) -> u8,
)
    requires
        0 <= left,
        0 <= top,
        0 <= width,
        left + width <= stride,
        0 < stride,
        head.len() == top * stride + left,
        painted.len() == tail.len(),
        forall|j: int|
            0 <= j < tail.len() ==> #[trigger] painted[j] == if in_block(j, stride, width, height) {
                pixel(left + j % stride, top + j / stride)
            } else {
                tail[j]
            },
    ensures
        head + painted == with_rect(head + tail, stride, left, top, width, height, pixel),
{
    let lhs = head + painted;
    let rhs = with_rect(head + tail, stride, left, top, width, height, pixel);
    assert(lhs.len() == rhs.len());
    assert forall|i: int| 0 <= i < lhs.len() implies lhs[i] == rhs[i] by {
        lemma_index_from_corner(i, stride, left, top, width);
        if i >= head.len() {
            let j = i - head.len();
            assert(lhs[i] == painted[j]);
        }
    }
    assert(lhs =~= rhs);
}

/// The pixels of a solid rectangle.
pub open spec fn solid_fn<E: BitmapEngine>(e: &E, set: i32) -> spec_fn(int, int) -> u8 {
    |x: int, y: int| e.solid_pixel(set)
}

/// The pixels of a tile at `(left, top)` that one line parts.
pub open spec fn halfplane_fn<E: BitmapEngine>(
    e: &E,
    a: i32,
    b: i32,
    c: i64,
    scale: i32,
    left: int,
    top: int,
) -> spec_fn(int, int) -> u8 {
    |x: int, y: int| e.halfplane_pixel(a, b, c, scale, x - left, y - top)
}

/// The pixels of a tile at `(left, top)` that the segments `line` cross.
pub open spec fn generic_fn<E: BitmapEngine>(
    e: &E,
    line: Seq<Segment>,
    winding: i32,
    left: int,
    top: int,
) -> spec_fn(int, int) -> u8 {
    |x: int, y: int| e.generic_pixel(line, winding, x - left, y - top)
}

/// The pixels of a rectangle at `(left, top)` that one line parts.
pub open spec fn halfplane_region_fn<E: BitmapEngine>(
    e: &E,
    a: i32,
    b: i32,
    c: i64,
    scale: i32,
    width: int,
    height: int,
    left: int,
    top: int,
) -> spec_fn(int, int) -> u8 {
    |x: int, y: int| halfplane_region_pixel(e, a, b, c, scale, width, height, x - left, y - top)
}

/// The pixels of a rectangle at `(left, top)` of a buffer that held `before`,
/// as the segments of two batches paint it.
pub open spec fn level_fn<E: BitmapEngine>(
    e: &E,
    before: Seq<u8>,
    stride: int,
    left: int,
    top: int,
    width: int,
    height: int,
    line0: Seq<Segment>,
    line1: Seq<Segment>,
    winding0: int,
    winding1: int,
) -> spec_fn(int, int) -> u8 {
    |x: int, y: int|
        level_pixel(
            e,
            before[y * stride + x],
            width,
            height,
            line0,
            line1,
            winding0,
            winding1,
            x - left,
            y - top,
        )
}

/// A rectangle that lies within a rectangle that fits a buffer fits it too.
pub proof fn lemma_rect_fits_inner(
    len: nat,
    stride: int,
    left: int,
    top: int,
    width: int,
    height: int,
    in_left: int,
    in_top: int,
    in_width: int,
    in_height: int,
)
    requires
        rect_fits(len, stride, left, top, width, height),
        left <= in_left,
        top <= in_top,
        1 <= in_width,
        1 <= in_height,
        in_left + in_width <= left + width,
        in_top + in_height <= top + height,
    ensures
        rect_fits(len, stride, in_left, in_top, in_width, in_height),
        in_top * stride + in_left <= len,
        in_top + in_height <= len,
        in_left + in_width <= len,
        crate::bitmap::block_fits(
            (len - (in_top * stride + in_left)) as nat,
            stride,
            in_width,
            in_height,
        ),
{
    assert((in_top + in_height - 1) * stride <= (top + height - 1) * stride) by (nonlinear_arith)
        requires
            in_top + in_height <= top + height,
            stride > 0,
    ;
    assert((in_top + in_height - 1) * stride == in_top * stride + (in_height - 1) * stride)
        by (nonlinear_arith);
    assert((in_height - 1) * stride >= 0) by (nonlinear_arith)
        requires
            in_height >= 1,
            stride > 0,
    ;
    assert(in_top * stride >= 0) by (nonlinear_arith)
        requires
            in_top >= 0,
            stride > 0,
    ;
    assert((in_top + in_height - 1) * stride >= in_top + in_height - 1) by (nonlinear_arith)
        requires
            in_top + in_height - 1 >= 0,
            stride >= 1,
    ;
}

/// The pixel in column `x` of row `y` of a block is byte `y * stride + x`.
pub proof fn lemma_block_index(x: int, y: int, stride: int)
    requires
        0 <= x < stride,
        0 <= y,
    ensures
        (y * stride + x) % stride == x,
        (y * stride + x) / stride == y,
        0 <= y * stride + x,
{
    assert(stride * y == y * stride) by (nonlinear_arith);
    assert(y * stride >= 0) by (nonlinear_arith)
        requires
            y >= 0,
            stride > 0,
    ;
    lemma_fundamental_div_mod_converse(y * stride + x, stride, y, x);
}

/// The pixels of a tile at `(left, top)` as one batch alone paints it.
pub open spec fn batch_fn<E: BitmapEngine>(
    e: &E,
    line: Seq<Segment>,
    winding: int,
    left: int,
    top: int,
) -> spec_fn(int, int) -> u8 {
    |x: int, y: int| batch_pixel(e, line, winding, x - left, y - top)
}

/// The pixels of a tile at `(left, top)` as the two batches paint it.
pub open spec fn tile_fn<E: BitmapEngine>(
    e: &E,
    line0: Seq<Segment>,
    line1: Seq<Segment>,
    winding0: int,
    winding1: int,
    left: int,
    top: int,
) -> spec_fn(int, int) -> u8 {
    |x: int, y: int| tile_pixel(e, line0, line1, winding0, winding1, x - left, y - top)
}

/// A side of at most `2^d` pixels is cut into parts of at most `2^(d - 1)` pixels.
pub proof fn lemma_split_point_halves(w: int, d: nat)
    requires
        2 <= w <= pow2(d),
    ensures
        d >= 1,
        split_point(w) <= pow2((d - 1) as nat),
        w - split_point(w) <= pow2((d - 1) as nat),
    decreases w,
{
    lemma2_to64();
    lemma_split_point(w);
    if d == 0 {
        assert(false);
    }
    lemma_pow2_unfold(d);
    lemma_pow2_pos((d - 1) as nat);
    if w > 2 {
        let half = (w + 1) / 2;
        if d == 1 {
            assert(false);
        }
        lemma_split_point_halves(half, (d - 1) as nat);
        lemma_pow2_unfold((d - 1) as nat);
    }
}

/// A side of more than one tile, made of whole tiles, is cut into parts made of whole tiles.
pub proof fn lemma_split_point_tiles(w: int, order: nat)
    requires
        w > pow2(order),
        w % (pow2(order) as int) == 0,
    ensures
        split_point(w) % (pow2(order) as int) == 0,
        (w - split_point(w)) % (pow2(order) as int) == 0,
        split_point(w) >= pow2(order),
    decreases w,
{
    lemma2_to64();
    lemma_pow2_pos(order);
    let ts = pow2(order) as int;
    if order == 0 {
        assert(w >= 2);
        lemma_split_point(w);
    } else {
        lemma_pow2_unfold(order);
        let half_ts = pow2((order - 1) as nat) as int;
        lemma_pow2_pos((order - 1) as nat);
        assert(ts == 2 * half_ts);
        lemma_fundamental_div_mod(w, ts);
        let k = w / ts;
        assert(ts * k == k * ts) by (nonlinear_arith);
        assert(k >= 2) by (nonlinear_arith)
            requires
                k * ts == w,
                w > ts,
                ts > 0,
        ;
        assert(w > 2);
        let half = (w + 1) / 2;
        assert(k * ts == 2 * (k * half_ts)) by (nonlinear_arith)
            requires
                ts == 2 * half_ts,
        ;
        assert(half == k * half_ts);
        assert(k * half_ts > half_ts) by (nonlinear_arith)
            requires
                k >= 2,
                half_ts > 0,
        ;
        assert(half_ts * k == k * half_ts) by (nonlinear_arith);
        lemma_fundamental_div_mod_converse(half, half_ts, k, 0);
        lemma_split_point_tiles(half, (order - 1) as nat);
        let p_half = split_point(half);
        lemma_fundamental_div_mod(p_half, half_ts);
        let q = p_half / half_ts;
        assert(ts * q == 2 * (half_ts * q)) by (nonlinear_arith)
            requires
                ts == 2 * half_ts,
        ;
        lemma_fundamental_div_mod_converse(2 * p_half, ts, q, 0);
        assert(ts * (k - q) == ts * k - ts * q) by (nonlinear_arith);
        lemma_fundamental_div_mod_converse(w - 2 * p_half, ts, k - q, 0);
    }
}

/// Segments that leave some room leave any smaller room.
pub proof fn lemma_all_fit_less(
    s: Seq<Segment>,
    room_x: int,
    room_y: int,
    less_x: int,
    less_y: int,
)
    requires
        crate::split::all_fit(s, room_x, room_y),
        0 <= less_x <= room_x,
        0 <= less_y <= room_y,
    ensures
        crate::split::all_fit(s, less_x, less_y),
{
}

/// Two batches that leave some room leave it when put together.
pub proof fn lemma_all_fit_joined(a: Seq<Segment>, b: Seq<Segment>, room_x: int, room_y: int)
    requires
        crate::split::all_fit(a, room_x, room_y),
        crate::split::all_fit(b, room_x, room_y),
    ensures
        crate::split::all_fit(a + b, room_x, room_y),
{
    assert forall|i: int| 0 <= i < (a + b).len() implies (#[trigger] (a + b)[i]).fits(
        room_x,
        room_y,
    ) by {
        if i < a.len() {
            assert((a + b)[i] == a[i]);
        } else {
            assert((a + b)[i] == b[i - a.len()]);
        }
    }
}

/// The parts of segments that leave some room leave it too.
pub proof fn lemma_all_fit_part(s: Seq<Segment>, from: int, to: int, room_x: int, room_y: int)
    requires
        crate::split::all_fit(s, room_x, room_y),
        0 <= from <= to <= s.len(),
    ensures
        crate::split::all_fit(s.subrange(from, to), room_x, room_y),
{
    assert forall|i: int| 0 <= i < s.subrange(from, to).len() implies (#[trigger] s.subrange(
        from,
        to,
    )[i]).fits(room_x, room_y) by {
        assert(s.subrange(from, to)[i] == s[from + i]);
    }
}

/// What a pixel of a rectangle is that takes no cut.
pub proof fn lemma_level_pixel_leaf<E: BitmapEngine>(
    e: &E,
    prev: u8,
    width: int,
    height: int,
    line0: Seq<Segment>,
    line1: Seq<Segment>,
    winding0: int,
    winding1: int,
    x: int,
    y: int,
)
    ensures
        level_pixel(e, prev, width, height, line0, line1, winding0, winding1, x, y) == match level_kind(
            e,
            width,
            height,
            line0,
            line1,
            winding0,
            winding1,
        ) {
            LevelKind::Blank => prev,
            LevelKind::Solid => e.solid_pixel(1),
            LevelKind::Halfplane => {
                let l = if fill_flags(line1, winding1).complex {
                    line1[0]
                } else {
                    line0[0]
                };
                let reverse = fill_flags(line0, winding0).reverse || fill_flags(
                    line1,
                    winding1,
                ).reverse;
                halfplane_region_pixel(
                    e,
                    l.a,
                    l.b,
                    l.c,
                    signed_scale(l.scale, reverse),
                    width,
                    height,
                    x,
                    y,
                )
            },
            LevelKind::Tile => tile_pixel(e, line0, line1, winding0, winding1, x, y),
            LevelKind::Split => level_pixel(
                e,
                prev,
                width,
                height,
                line0,
                line1,
                winding0,
                winding1,
                x,
                y,
            ),
        },
{
    reveal(level_pixel);
}

/// What a pixel of a rectangle is that is cut in two: the pixel of the part
/// that it lies in.
pub proof fn lemma_level_pixel_split<E: BitmapEngine>(
    e: &E,
    prev: u8,
    width: int,
    height: int,
    line0: Seq<Segment>,
    line1: Seq<Segment>,
    winding0: int,
    winding1: int,
    x: int,
    y: int,
)
    requires
        level_kind(e, width, height, line0, line1, winding0, winding1) is Split,
        0 < width,
        0 < height,
        width > height ==> 0 < split_point(width) < width,
        width <= height ==> 0 < split_point(height) < height,
    ensures
        ({
            let cut = level_cut(width, height);
            let g0 = split_group(line0, winding0, cut);
            let g1 = split_group(line1, winding1, cut);
            level_pixel(e, prev, width, height, line0, line1, winding0, winding1, x, y) == if width
                > height {
                let p = split_point(width);
                if x < p {
                    level_pixel(e, prev, p, height, g0.first, g1.first, winding0, winding1, x, y)
                } else {
                    level_pixel(
                        e,
                        prev,
                        width - p,
                        height,
                        g0.second,
                        g1.second,
                        g0.winding,
                        g1.winding,
                        x - p,
                        y,
                    )
                }
            } else {
                let p = split_point(height);
                if y < p {
                    level_pixel(e, prev, width, p, g0.first, g1.first, winding0, winding1, x, y)
                } else {
                    level_pixel(
                        e,
                        prev,
                        width,
                        height - p,
                        g0.second,
                        g1.second,
                        g0.winding,
                        g1.winding,
                        x,
                        y - p,
                    )
                }
            }
        }),
{
    reveal(level_pixel);
}

/// A rectangle that takes no cut, painted with the pixels `f` that the kind
/// of the rectangle asks for, is painted as its level says.
pub proof fn lemma_level_leaf<E: BitmapEngine>(
    e: &E,
    before: Seq<u8>,
    stride: int,
    left: int,
    top: int,
    width: int,
    height: int,
    line0: Seq<Segment>,
    line1: Seq<Segment>,
    winding0: int,
    winding1: int,
    f: spec_fn(int, int) -> u8,
)
    requires
        0 < stride,
        ({
            let kind = level_kind(e, width, height, line0, line1, winding0, winding1);
            let l = if fill_flags(line1, winding1).complex {
                line1[0]
            } else {
                line0[0]
            };
            let reverse = fill_flags(line0, winding0).reverse || fill_flags(
                line1,
                winding1,
            ).reverse;
            ||| kind is Solid && f == solid_fn(e, 1)
            ||| kind is Halfplane && f == halfplane_region_fn(
                e,
                l.a,
                l.b,
                l.c,
                signed_scale(l.scale, reverse),
                width,
                height,
                left,
                top,
            )
            ||| kind is Tile && f == tile_fn(e, line0, line1, winding0, winding1, left, top)
        }),
    ensures
        with_rect(before, stride, left, top, width, height, f) == with_rect(
            before,
            stride,
            left,
            top,
            width,
            height,
            level_fn(e, before, stride, left, top, width, height, line0, line1, winding0, winding1),
        ),
{
    let goal = level_fn(
        e,
        before,
        stride,
        left,
        top,
        width,
        height,
        line0,
        line1,
        winding0,
        winding1,
    );
    assert forall|x: int, y: int|
        left <= x < left + width && top <= y < top + height implies #[trigger] f(x, y) == goal(
        x,
        y,
    ) by {
        lemma_level_pixel_leaf(
            e,
            before[y * stride + x],
            width,
            height,
            line0,
            line1,
            winding0,
            winding1,
            x - left,
            y - top,
        );
    }
    lemma_rect_same(before, stride, left, top, width, height, f, goal);
}

} // verus!
