//! Painting single tiles through the engine, and rectangles of tiles that
//! are solid or parted by one line.

use vstd::prelude::*;
use vstd::arithmetic::power2::*;
use vstd::arithmetic::div_mod::*;
use crate::bitmap::{BitmapEngine, in_block, MAX_TILE_ORDER};
use crate::coverage::{
    batch_fn, generic_fn, halfplane_fn, halfplane_region_fn, lemma_block_at, lemma_block_index,
    lemma_index_from_corner, lemma_rect_below, lemma_rect_beside, lemma_rect_empty,
    lemma_rect_fits_inner, lemma_rect_same, rect_fits, signed_scale, solid_fn, tile_fn, tile_size,
    with_rect,
};
use crate::polyline::{OFFSET_LIMIT, OFFSET_PER_UNIT, Segment};
use crate::rasterizer::RasterizerData;
use crate::sound::all_sound;
use crate::split::{all_fit, fill_flags, FillFlags, get_fill_flags};
use crate::utils::{i64_mul, lemma_product_bound, pow2_usize};

verus! {

/// No rectangle to fill is wider or higher than this many pixels, and none
/// starts further than this from the origin of the outline.
pub const MAX_EXTENT: i32 = 0x40_0000;

/// The number of pixels a tile of the engine is wide.
pub(crate) fn tile_width<E: BitmapEngine>(engine: &E) -> (r: usize)
    ensures
        r == tile_size(engine),
        0 <= engine.spec_tile_order() <= MAX_TILE_ORDER,
        1 <= r <= 256,
{
    let order: i32 = engine.tile_order();
    proof {
        lemma2_to64();
        if order < 8 {
            lemma_pow2_strictly_increases(order as nat, 8);
        }
    }
    pow2_usize(order as u32)
}

/// Paints the tile at `(left, top)` solid.
pub(crate) fn paint_solid<E: BitmapEngine>(
    engine: &E,
    buf: &mut [u8],
    stride: isize,
    left: usize,
    top: usize,
    set: i32,
)
    requires
        0 <= engine.spec_tile_order() <= MAX_TILE_ORDER,
        rect_fits(
            old(buf)@.len(),
            stride as int,
            left as int,
            top as int,
            tile_size(engine),
            tile_size(engine),
        ),
    ensures
        final(buf)@ == with_rect(
            old(buf)@,
            stride as int,
            left as int,
            top as int,
            tile_size(engine),
            tile_size(engine),
            solid_fn(engine, set),
        ),
{
    let ghost ts = tile_size(engine);
    proof {
        lemma_rect_fits_inner(
            buf@.len(),
            stride as int,
            left as int,
            top as int,
            ts,
            ts,
            left as int,
            top as int,
            ts,
            ts,
        );
    }
    let len: usize = buf.len();
    assert(top * stride + left <= len);
    assert(top * stride >= 0) by (nonlinear_arith)
        requires
            top >= 0,
            stride > 0,
    ;
    let off: usize = top * (stride as usize) + left;
    let ghost before = buf@;
    let (head, tail) = buf.split_at_mut(off);
    let ghost tail_before = tail@;
    engine.fill_solid(tail, stride, set);
    proof {
        assert(before =~= head@ + tail_before);
        lemma_block_at(
            head@,
            tail_before,
            tail@,
            stride as int,
            left as int,
            top as int,
            ts,
            ts,
            solid_fn(engine, set),
        );
    }
}

/// Paints the tile at `(left, top)` as one side of a line.
pub(crate) fn paint_halfplane<E: BitmapEngine>(
    engine: &E,
    buf: &mut [u8],
    stride: isize,
    left: usize,
    top: usize,
    a: i32,
    b: i32,
    c: i64,
    scale: i32,
)
    requires
        0 <= engine.spec_tile_order() <= MAX_TILE_ORDER,
        rect_fits(
            old(buf)@.len(),
            stride as int,
            left as int,
            top as int,
            tile_size(engine),
            tile_size(engine),
        ),
    ensures
        final(buf)@ == with_rect(
            old(buf)@,
            stride as int,
            left as int,
            top as int,
            tile_size(engine),
            tile_size(engine),
            halfplane_fn(engine, a, b, c, scale, left as int, top as int),
        ),
{
    let ghost ts = tile_size(engine);
    proof {
        lemma_rect_fits_inner(
            buf@.len(),
            stride as int,
            left as int,
            top as int,
            ts,
            ts,
            left as int,
            top as int,
            ts,
            ts,
        );
    }
    let len: usize = buf.len();
    assert(top * stride + left <= len);
    assert(top * stride >= 0) by (nonlinear_arith)
        requires
            top >= 0,
            stride > 0,
    ;
    let off: usize = top * (stride as usize) + left;
    let ghost before = buf@;
    let (head, tail) = buf.split_at_mut(off);
    let ghost tail_before = tail@;
    engine.fill_halfplane(tail, stride, a, b, c, scale);
    proof {
        assert(before =~= head@ + tail_before);
        lemma_block_at(
            head@,
            tail_before,
            tail@,
            stride as int,
            left as int,
            top as int,
            ts,
            ts,
            halfplane_fn(engine, a, b, c, scale, left as int, top as int),
        );
    }
}

/// Paints the tile at `(left, top)` with the coverage of the segments `line`.
pub(crate) fn paint_generic<E: BitmapEngine>(
    engine: &E,
    buf: &mut [u8],
    stride: isize,
    left: usize,
    top: usize,
    line: &[Segment],
    winding: i32,
)
    requires
        0 <= engine.spec_tile_order() <= MAX_TILE_ORDER,
        rect_fits(
            old(buf)@.len(),
            stride as int,
            left as int,
            top as int,
            tile_size(engine),
            tile_size(engine),
        ),
        forall|i: int| 0 <= i < line@.len() ==> (#[trigger] line@[i]).fits(0, 0),
        all_sound(line@),
    ensures
        final(buf)@ == with_rect(
            old(buf)@,
            stride as int,
            left as int,
            top as int,
            tile_size(engine),
            tile_size(engine),
            generic_fn(engine, line@, winding, left as int, top as int),
        ),
{
    let ghost ts = tile_size(engine);
    proof {
        lemma_rect_fits_inner(
            buf@.len(),
            stride as int,
            left as int,
            top as int,
            ts,
            ts,
            left as int,
            top as int,
            ts,
            ts,
        );
    }
    let len: usize = buf.len();
    assert(top * stride + left <= len);
    assert(top * stride >= 0) by (nonlinear_arith)
        requires
            top >= 0,
            stride > 0,
    ;
    let off: usize = top * (stride as usize) + left;
    let ghost before = buf@;
    let (head, tail) = buf.split_at_mut(off);
    let ghost tail_before = tail@;
    engine.fill_generic(tail, stride, line, winding);
    proof {
        assert(before =~= head@ + tail_before);
        lemma_block_at(
            head@,
            tail_before,
            tail@,
            stride as int,
            left as int,
            top as int,
            ts,
            ts,
            generic_fn(engine, line@, winding, left as int, top as int),
        );
    }
}

/// The rectangle at `(left, top)` is made of whole tiles of the engine,
/// lies within a buffer of `len` bytes, and is no larger than `MAX_EXTENT`
/// either way.
pub open spec fn region_ok<E: BitmapEngine>(
    e: &E,
    len: nat,
    stride: int,
    left: int,
    top: int,
    width: int,
    height: int,
) -> bool {
    &&& 0 <= e.spec_tile_order() <= MAX_TILE_ORDER
    &&& 0 < width <= MAX_EXTENT
    &&& 0 < height <= MAX_EXTENT
    &&& width % tile_size(e) == 0
    &&& height % tile_size(e) == 0
    &&& rect_fits(len, stride, left, top, width, height)
}

/// A length made of whole tiles is as many tiles as it is divided by the tile.
pub(crate) proof fn lemma_tiles(length: int, ts: int)
    requires
        0 < ts,
        0 < length,
        length % ts == 0,
    ensures
        (length / ts) * ts == length,
        length / ts >= 1,
        forall|k: int| 0 <= k < length / ts ==> (#[trigger] (k * ts)) + ts <= length && k * ts >= 0,
{
    lemma_fundamental_div_mod(length, ts);
    let n = length / ts;
    assert(ts * n == n * ts) by (nonlinear_arith);
    assert(n >= 1) by (nonlinear_arith)
        requires
            n * ts == length,
            length > 0,
            ts > 0,
    ;
    assert forall|k: int| 0 <= k < n implies (#[trigger] (k * ts)) + ts <= length && k * ts
        >= 0 by {
        assert(k * ts + ts <= n * ts && k * ts >= 0) by (nonlinear_arith)
            requires
                0 <= k < n,
                ts > 0,
        ;
    }
}

/// A pixel of the tile in column `tx` lies in no other column of tiles.
pub(crate) proof fn lemma_tile_of(x: int, ts: int, tx: int)
    requires
        0 < ts,
        tx * ts <= x < tx * ts + ts,
    ensures
        x / ts == tx,
        x % ts == x - tx * ts,
{
    assert(ts * tx == tx * ts) by (nonlinear_arith);
    lemma_fundamental_div_mod_converse(x, ts, tx, x - tx * ts);
}

/// The room that a line leaves for the offset of a rectangle of `width` by
/// `height` pixels to be taken to any of its tiles.
pub open spec fn line_fits(a: i32, b: i32, c: i64, width: int, height: int) -> bool {
    &&& a > i32::MIN
    &&& b > i32::MIN
    &&& -OFFSET_LIMIT + OFFSET_PER_UNIT * (64 * width + 64 * height) <= c
    &&& c <= OFFSET_LIMIT - OFFSET_PER_UNIT * (64 * width + 64 * height)
}

/// Paints tile `(tx, ty)` of the rectangle at `(left, top)` that one line parts.
pub(crate) fn paint_halfplane_at<E: BitmapEngine>(
    engine: &E,
    buf: &mut [u8],
    stride: isize,
    left: usize,
    top: usize,
    width: usize,
    height: usize,
    tx: usize,
    ty: usize,
    ts: usize,
    a: i32,
    b: i32,
    c: i64,
    scale: i32,
)
    requires
        region_ok(
            engine,
            old(buf)@.len(),
            stride as int,
            left as int,
            top as int,
            width as int,
            height as int,
        ),
        ts == tile_size(engine),
        1 <= ts <= 256,
        !(width == ts && height == ts),
        tx < width / ts,
        ty < height / ts,
        line_fits(a, b, c, width as int, height as int),
    ensures
        final(buf)@ == with_rect(
            old(buf)@,
            stride as int,
            left + tx * ts,
            top + ty * ts,
            ts as int,
            ts as int,
            halfplane_region_fn(
                engine,
                a,
                b,
                c,
                scale,
                width as int,
                height as int,
                left as int,
                top as int,
            ),
        ),
{
    proof {
        lemma_tiles(width as int, ts as int);
        lemma_tiles(height as int, ts as int);
        assert(tx * ts + ts <= width);
        assert(ty * ts + ts <= height);
        lemma_rect_fits_inner(
            buf@.len(),
            stride as int,
            left as int,
            top as int,
            width as int,
            height as int,
            left + tx * ts,
            top + ty * ts,
            ts as int,
            ts as int,
        );
        lemma_product_bound(a as int, tx as int, 0x8000_0000, width as int);
        lemma_product_bound(b as int, ty as int, 0x8000_0000, height as int);
        assert(tx * ts >= tx && ty * ts >= ty) by (nonlinear_arith)
            requires
                ts >= 1,
                tx >= 0,
                ty >= 0,
        ;
    }
    let len: usize = buf.len();
    let unit: i64 = 64 * (ts as i64);
    let half: i64 = 32 * (ts as i64);
    let t: i64 = i64_mul(a, tx as i32) + i64_mul(b, ty as i32);
    proof {
        let u = unit as int;
        assert((a * tx + b * ty) * u == a * (tx * u) + b * (ty * u)) by (nonlinear_arith);
        assert(tx * u == 64 * (tx * ts) && ty * u == 64 * (ty * ts)) by (nonlinear_arith)
            requires
                u == 64 * ts,
        ;
        lemma_product_bound(a as int, tx * u, 0x8000_0000, 64 * width);
        lemma_product_bound(b as int, ty * u, 0x8000_0000, 64 * height);
    }
    let cc: i64 = c - t * unit;
    let abs_a: i64 = if a < 0 { -(a as i64) } else { a as i64 };
    let abs_b: i64 = if b < 0 { -(b as i64) } else { b as i64 };
    proof {
        lemma_product_bound(abs_a + abs_b, half as int, 0x1_0000_0000, 0x2000);
        lemma_product_bound(a + b, half as int, 0x1_0000_0000, 0x2000);
    }
    let size: i64 = (abs_a + abs_b) * half;
    let offs: i64 = ((a as i64) + (b as i64)) * half;
    let offs_c: i64 = offs - cc;
    let abs_c: i64 = if offs_c < 0 { -offs_c } else { offs_c };
    let tile_left: usize = left + tx * ts;
    let tile_top: usize = top + ty * ts;
    let ghost region = halfplane_region_fn(
        engine,
        a,
        b,
        c,
        scale,
        width as int,
        height as int,
        left as int,
        top as int,
    );
    let ghost before = buf@;
    if abs_c < size {
        paint_halfplane(engine, buf, stride, tile_left, tile_top, a, b, cc, scale);
        proof {
            let local = halfplane_fn(engine, a, b, cc, scale, tile_left as int, tile_top as int);
            assert forall|x: int, y: int|
                tile_left <= x < tile_left + ts && tile_top <= y < tile_top
                    + ts implies #[trigger] local(x, y) == region(x, y) by {
                lemma_tile_of(x - left, ts as int, tx as int);
                lemma_tile_of(y - top, ts as int, ty as int);
            }
            lemma_rect_same(
                before,
                stride as int,
                tile_left as int,
                tile_top as int,
                ts as int,
                ts as int,
                local,
                region,
            );
        }
    } else {
        let set: i32 = if (offs_c < 0) != (scale < 0) { i32::MIN } else { 0 };
        paint_solid(engine, buf, stride, tile_left, tile_top, set);
        proof {
            let local = solid_fn(engine, set);
            assert forall|x: int, y: int|
                tile_left <= x < tile_left + ts && tile_top <= y < tile_top
                    + ts implies #[trigger] local(x, y) == region(x, y) by {
                lemma_tile_of(x - left, ts as int, tx as int);
                lemma_tile_of(y - top, ts as int, ty as int);
            }
            lemma_rect_same(
                before,
                stride as int,
                tile_left as int,
                tile_top as int,
                ts as int,
                ts as int,
                local,
                region,
            );
        }
    }
}

/// The scale of a segment as the engine is to see it.
pub(crate) fn scale_for(scale: i32, reverse: bool) -> (r: i32)
    requires
        scale > i32::MIN,
    ensures
        r == signed_scale(scale, reverse),
{
    if reverse {
        -scale
    } else {
        scale
    }
}

/// Paints the tile at `(left, top)` as one batch of segments alone paints it.
pub(crate) fn paint_batch<E: BitmapEngine>(
    engine: &E,
    buf: &mut [u8],
    stride: isize,
    left: usize,
    top: usize,
    line: &[Segment],
    winding: i32,
)
    requires
        0 <= engine.spec_tile_order() <= MAX_TILE_ORDER,
        rect_fits(
            old(buf)@.len(),
            stride as int,
            left as int,
            top as int,
            tile_size(engine),
            tile_size(engine),
        ),
        all_fit(line@, 0, 0),
        all_sound(line@),
        winding < i32::MAX,
        fill_flags(line@, winding as int).complex,
    ensures
        final(buf)@ == with_rect(
            old(buf)@,
            stride as int,
            left as int,
            top as int,
            tile_size(engine),
            tile_size(engine),
            batch_fn(engine, line@, winding as int, left as int, top as int),
        ),
{
    let ghost before = buf@;
    let ghost ts = tile_size(engine);
    let ghost goal = batch_fn(engine, line@, winding as int, left as int, top as int);
    let flags: FillFlags = get_fill_flags(line, winding);
    if flags.generic {
        paint_generic(engine, buf, stride, left, top, line, winding);
        proof {
            lemma_rect_same(
                before,
                stride as int,
                left as int,
                top as int,
                ts,
                ts,
                generic_fn(engine, line@, winding, left as int, top as int),
                goal,
            );
        }
    } else {
        let l: Segment = line[0];
        let scale: i32 = scale_for(l.scale, flags.reverse);
        paint_halfplane(engine, buf, stride, left, top, l.a, l.b, l.c, scale);
        proof {
            lemma_rect_same(
                before,
                stride as int,
                left as int,
                top as int,
                ts,
                ts,
                halfplane_fn(engine, l.a, l.b, l.c, scale, left as int, top as int),
                goal,
            );
        }
    }
}

/// Paints the tile at `(left, top)` as two batches of segments paint it
/// whose borders both cross the tile: the first into the buffer, the second
/// into the scratch tile, which is then added to the first.
pub(crate) fn paint_both<E: BitmapEngine>(
    engine: &E,
    buf: &mut [u8],
    stride: isize,
    left: usize,
    top: usize,
    line0: &[Segment],
    line1: &[Segment],
    winding: [i32; 2],
    tile: &mut [u8],
)
    requires
        0 <= engine.spec_tile_order() <= MAX_TILE_ORDER,
        rect_fits(
            old(buf)@.len(),
            stride as int,
            left as int,
            top as int,
            tile_size(engine),
            tile_size(engine),
        ),
        all_fit(line0@, 0, 0),
        all_fit(line1@, 0, 0),
        all_sound(line0@),
        all_sound(line1@),
        old(tile)@.len() >= tile_size(engine) * tile_size(engine),
        winding[0] < i32::MAX,
        winding[1] < i32::MAX,
        fill_flags(line0@, winding[0] as int).complex,
        fill_flags(line1@, winding[1] as int).complex,
    ensures
        final(buf)@ == with_rect(
            old(buf)@,
            stride as int,
            left as int,
            top as int,
            tile_size(engine),
            tile_size(engine),
            tile_fn(
                engine,
                line0@,
                line1@,
                winding[0] as int,
                winding[1] as int,
                left as int,
                top as int,
            ),
        ),
        final(tile)@.len() == old(tile)@.len(),
{
    let ts: usize = tile_width(engine);
    let ghost st = stride as int;
    let ghost before = buf@;
    let ghost first = batch_fn(engine, line0@, winding[0] as int, left as int, top as int);
    let ghost second = batch_fn(engine, line1@, winding[1] as int, 0, 0);
    let ghost goal = tile_fn(
        engine,
        line0@,
        line1@,
        winding[0] as int,
        winding[1] as int,
        left as int,
        top as int,
    );
    paint_batch(engine, buf, stride, left, top, line0, winding[0]);
    let ghost painted = buf@;
    proof {
        lemma_product_bound(ts as int, ts as int, 256, 256);
        assert(ts * ts >= ts) by (nonlinear_arith)
            requires
                ts >= 1,
        ;
        assert((ts - 1) * ts + ts == ts * ts) by (nonlinear_arith);
    }
    let ghost scratch = tile@;
    paint_batch(engine, tile, ts as isize, 0, 0, line1, winding[1]);
    let ghost shade = tile@;
    proof {
        lemma_rect_fits_inner(
            buf@.len(),
            st,
            left as int,
            top as int,
            ts as int,
            ts as int,
            left as int,
            top as int,
            ts as int,
            ts as int,
        );
    }
    let len: usize = buf.len();
    assert(top * stride >= 0) by (nonlinear_arith)
        requires
            top >= 0,
            stride > 0,
    ;
    let off: usize = top * (stride as usize) + left;
    let (head, tail) = buf.split_at_mut(off);
    let ghost tail_painted = tail@;
    engine.add_bitmaps(tail, stride, tile, ts as isize, ts as isize, ts as isize);
    proof {
        let tail_before = before.subrange(off as int, len as int);
        assert(before =~= head@ + tail_before) by {
            assert forall|i: int| 0 <= i < off implies before[i] == head@[i] by {
                lemma_index_from_corner(i, st, left as int, top as int, ts as int);
                assert(painted[i] == before[i]);
            }
        }
        assert forall|j: int| 0 <= j < tail_before.len() implies #[trigger] tail@[j] == if in_block(
            j,
            st,
            ts as int,
            ts as int,
        ) {
            goal(left + j % st, top + j / st)
        } else {
            tail_before[j]
        } by {
            let i = off + j;
            lemma_index_from_corner(i, st, left as int, top as int, ts as int);
            lemma_fundamental_div_mod(j, st);
            lemma_mod_bound(j, st);
            let x = j % st;
            let y = j / st;
            assert(st * y == y * st) by (nonlinear_arith);
            assert(tail_painted[j] == painted[i]);
            if in_block(j, st, ts as int, ts as int) {
                lemma_block_index(x, y, ts as int);
                assert(painted[i] == first(left + x, top + y));
                let k = y * ts + x;
                assert(k < ts * ts) by (nonlinear_arith)
                    requires
                        k == y * ts + x,
                        0 <= x < ts,
                        0 <= y < ts,
                ;
                assert(shade[k] == second(x, y));
            } else {
                assert(painted[i] == before[i]);
            }
        }
        lemma_block_at(
            head@,
            tail_before,
            tail@,
            st,
            left as int,
            top as int,
            ts as int,
            ts as int,
            goal,
        );
    }
}

/// Paints the tile at `(left, top)` from the segments of two batches, of
/// which at least one has its border cross the tile.
pub(crate) fn fill_tile<E: BitmapEngine>(
    engine: &E,
    buf: &mut [u8],
    stride: isize,
    left: usize,
    top: usize,
    line0: &[Segment],
    line1: &[Segment],
    winding: [i32; 2],
    tile: &mut [u8],
)
    requires
        0 <= engine.spec_tile_order() <= MAX_TILE_ORDER,
        rect_fits(
            old(buf)@.len(),
            stride as int,
            left as int,
            top as int,
            tile_size(engine),
            tile_size(engine),
        ),
        all_fit(line0@, 0, 0),
        all_fit(line1@, 0, 0),
        all_sound(line0@),
        all_sound(line1@),
        old(tile)@.len() >= tile_size(engine) * tile_size(engine),
        winding[0] < i32::MAX,
        winding[1] < i32::MAX,
        fill_flags(line0@, winding[0] as int).complex || fill_flags(
            line1@,
            winding[1] as int,
        ).complex,
    ensures
        final(buf)@ == with_rect(
            old(buf)@,
            stride as int,
            left as int,
            top as int,
            tile_size(engine),
            tile_size(engine),
            tile_fn(
                engine,
                line0@,
                line1@,
                winding[0] as int,
                winding[1] as int,
                left as int,
                top as int,
            ),
        ),
        final(tile)@.len() == old(tile)@.len(),
{
    let ghost before = buf@;
    let ghost ts = tile_size(engine);
    let ghost goal = tile_fn(
        engine,
        line0@,
        line1@,
        winding[0] as int,
        winding[1] as int,
        left as int,
        top as int,
    );
    let flags0: FillFlags = get_fill_flags(line0, winding[0]);
    let flags1: FillFlags = get_fill_flags(line1, winding[1]);
    if !flags1.complex {
        paint_generic(engine, buf, stride, left, top, line0, winding[0]);
        proof {
            lemma_rect_same(
                before,
                stride as int,
                left as int,
                top as int,
                ts,
                ts,
                generic_fn(engine, line0@, winding[0], left as int, top as int),
                goal,
            );
        }
    } else if !flags0.complex {
        paint_generic(engine, buf, stride, left, top, line1, winding[1]);
        proof {
            lemma_rect_same(
                before,
                stride as int,
                left as int,
                top as int,
                ts,
                ts,
                generic_fn(engine, line1@, winding[1], left as int, top as int),
                goal,
            );
        }
    } else {
        paint_both(engine, buf, stride, left, top, line0, line1, winding, tile);
    }
}

impl RasterizerData {
    /// Paints the rectangle at `(left, top)` solid, tile by tile.
    pub(crate) fn fill_solid<E: BitmapEngine>(
        engine: &E,
        buf: &mut [u8],
        left: usize,
        top: usize,
        width: i32,
        height: i32,
        stride: isize,
        set: i32,
    )
        requires
            region_ok(
                engine,
                old(buf)@.len(),
                stride as int,
                left as int,
                top as int,
                width as int,
                height as int,
            ),
        ensures
            final(buf)@ == with_rect(
                old(buf)@,
                stride as int,
                left as int,
                top as int,
                width as int,
                height as int,
                solid_fn(engine, set),
            ),
    {
        let ts: usize = tile_width(engine);
        let len: usize = buf.len();
        let w: usize = width as usize;
        let h: usize = height as usize;
        let nx: usize = w / ts;
        let ny: usize = h / ts;
        let ghost pix = solid_fn(engine, set);
        let ghost st = stride as int;
        proof {
            lemma_tiles(w as int, ts as int);
            lemma_tiles(h as int, ts as int);
            lemma_rect_empty(old(buf)@, st, left as int, top as int, w as int, 0, pix);
        }
        let mut ty: usize = 0;
        let mut y: usize = 0;
        while ty < ny
            invariant
                region_ok(engine, old(buf)@.len(), st, left as int, top as int, w as int, h as int),
                buf@.len() == old(buf)@.len(),
                buf@.len() == len,
                st == stride,
                ts == tile_size(engine),
                pix == solid_fn(engine, set),
                nx == w / ts,
                ny == h / ts,
                nx * ts == w,
                ny * ts == h,
                forall|k: int| 0 <= k < nx ==> (#[trigger] (k * ts)) + ts <= w && k * ts >= 0,
                forall|k: int| 0 <= k < ny ==> (#[trigger] (k * ts)) + ts <= h && k * ts >= 0,
                0 <= ty <= ny,
                y == ty * ts,
                buf@ == with_rect(old(buf)@, st, left as int, top as int, w as int, y as int, pix),
            decreases ny - ty,
        {
            let ghost row = buf@;
            let mut tx: usize = 0;
            let mut x: usize = 0;
            proof {
                assert(ty * ts + ts <= h);
                lemma_rect_empty(row, st, left as int, top + y, 0, ts as int, pix);
            }
            while tx < nx
                invariant
                    region_ok(
                        engine,
                        old(buf)@.len(),
                        st,
                        left as int,
                        top as int,
                        w as int,
                        h as int,
                    ),
                    buf@.len() == old(buf)@.len(),
                    buf@.len() == len,
                    st == stride,
                    ts == tile_size(engine),
                    pix == solid_fn(engine, set),
                    nx * ts == w,
                    forall|k: int| 0 <= k < nx ==> (#[trigger] (k * ts)) + ts <= w && k * ts >= 0,
                    0 <= tx <= nx,
                    x == tx * ts,
                    y + ts <= h,
                    buf@ == with_rect(row, st, left as int, top + y, x as int, ts as int, pix),
                decreases nx - tx,
            {
                let ghost cur = buf@;
                proof {
                    assert(tx * ts + ts <= w);
                    lemma_rect_fits_inner(
                        buf@.len(),
                        st,
                        left as int,
                        top as int,
                        w as int,
                        h as int,
                        left + x,
                        top + y,
                        ts as int,
                        ts as int,
                    );
                }
                paint_solid(engine, buf, stride, left + x, top + y, set);
                proof {
                    lemma_rect_beside(row, st, left as int, top + y, x as int, ts as int, ts as int, pix);
                    assert((tx + 1) * ts == tx * ts + ts) by (nonlinear_arith);
                }
                tx = tx + 1;
                x = x + ts;
            }
            proof {
                lemma_rect_below(
                    old(buf)@,
                    st,
                    left as int,
                    top as int,
                    w as int,
                    y as int,
                    ts as int,
                    pix,
                );
                assert((ty + 1) * ts == ty * ts + ts) by (nonlinear_arith);
            }
            ty = ty + 1;
            y = y + ts;
        }
    }

    /// Paints the rectangle at `(left, top)` that one line parts, tile by tile.
    pub(crate) fn fill_halfplane<E: BitmapEngine>(
        engine: &E,
        buf: &mut [u8],
        left: usize,
        top: usize,
        width: i32,
        height: i32,
        stride: isize,
        a: i32,
        b: i32,
        c: i64,
        scale: i32,
    )
        requires
            region_ok(
                engine,
                old(buf)@.len(),
                stride as int,
                left as int,
                top as int,
                width as int,
                height as int,
            ),
            line_fits(a, b, c, width as int, height as int),
        ensures
            final(buf)@ == with_rect(
                old(buf)@,
                stride as int,
                left as int,
                top as int,
                width as int,
                height as int,
                halfplane_region_fn(
                    engine,
                    a,
                    b,
                    c,
                    scale,
                    width as int,
                    height as int,
                    left as int,
                    top as int,
                ),
            ),
    {
        let ts: usize = tile_width(engine);
        let len: usize = buf.len();
        let w: usize = width as usize;
        let h: usize = height as usize;
        let ghost st = stride as int;
        let ghost pix = halfplane_region_fn(
            engine,
            a,
            b,
            c,
            scale,
            w as int,
            h as int,
            left as int,
            top as int,
        );
        if w == ts && h == ts {
            let ghost before = buf@;
            paint_halfplane(engine, buf, stride, left, top, a, b, c, scale);
            proof {
                lemma_rect_same(
                    before,
                    st,
                    left as int,
                    top as int,
                    ts as int,
                    ts as int,
                    halfplane_fn(engine, a, b, c, scale, left as int, top as int),
                    pix,
                );
            }
            return ;
        }
        let nx: usize = w / ts;
        let ny: usize = h / ts;
        proof {
            lemma_tiles(w as int, ts as int);
            lemma_tiles(h as int, ts as int);
            lemma_rect_empty(old(buf)@, st, left as int, top as int, w as int, 0, pix);
        }
        let mut ty: usize = 0;
        let mut y: usize = 0;
        while ty < ny
            invariant
                region_ok(engine, old(buf)@.len(), st, left as int, top as int, w as int, h as int),
                line_fits(a, b, c, w as int, h as int),
                buf@.len() == old(buf)@.len(),
                buf@.len() == len,
                st == stride,
                ts == tile_size(engine),
                1 <= ts <= 256,
                !(w == ts && h == ts),
                pix == halfplane_region_fn(
                    engine,
                    a,
                    b,
                    c,
                    scale,
                    w as int,
                    h as int,
                    left as int,
                    top as int,
                ),
                nx == w / ts,
                ny == h / ts,
                nx * ts == w,
                ny * ts == h,
                forall|k: int| 0 <= k < nx ==> (#[trigger] (k * ts)) + ts <= w && k * ts >= 0,
                forall|k: int| 0 <= k < ny ==> (#[trigger] (k * ts)) + ts <= h && k * ts >= 0,
                0 <= ty <= ny,
                y == ty * ts,
                buf@ == with_rect(old(buf)@, st, left as int, top as int, w as int, y as int, pix),
            decreases ny - ty,
        {
            let ghost row = buf@;
            let mut tx: usize = 0;
            let mut x: usize = 0;
            proof {
                assert(ty * ts + ts <= h);
                lemma_rect_empty(row, st, left as int, top + y, 0, ts as int, pix);
            }
            while tx < nx
                invariant
                    region_ok(
                        engine,
                        old(buf)@.len(),
                        st,
                        left as int,
                        top as int,
                        w as int,
                        h as int,
                    ),
                    line_fits(a, b, c, w as int, h as int),
                    buf@.len() == old(buf)@.len(),
                    buf@.len() == len,
                    st == stride,
                    ts == tile_size(engine),
                    1 <= ts <= 256,
                    !(w == ts && h == ts),
                    pix == halfplane_region_fn(
                        engine,
                        a,
                        b,
                        c,
                        scale,
                        w as int,
                        h as int,
                        left as int,
                        top as int,
                    ),
                    nx == w / ts,
                    ny == h / ts,
                    nx * ts == w,
                    forall|k: int| 0 <= k < nx ==> (#[trigger] (k * ts)) + ts <= w && k * ts >= 0,
                    0 <= tx <= nx,
                    ty < ny,
                    x == tx * ts,
                    y == ty * ts,
                    y + ts <= h,
                    buf@ == with_rect(row, st, left as int, top + y, x as int, ts as int, pix),
                decreases nx - tx,
            {
                paint_halfplane_at(
                    engine,
                    buf,
                    stride,
                    left,
                    top,
                    w,
                    h,
                    tx,
                    ty,
                    ts,
                    a,
                    b,
                    c,
                    scale,
                );
                proof {
                    lemma_rect_beside(row, st, left as int, top + y, x as int, ts as int, ts as int, pix);
                    assert((tx + 1) * ts == tx * ts + ts) by (nonlinear_arith);
                }
                tx = tx + 1;
                x = x + ts;
            }
            proof {
                lemma_rect_below(
                    old(buf)@,
                    st,
                    left as int,
                    top as int,
                    w as int,
                    y as int,
                    ts as int,
                    pix,
                );
                assert((ty + 1) * ts == ty * ts + ts) by (nonlinear_arith);
            }
            ty = ty + 1;
            y = y + ts;
        }
    }
}

} // verus!
