//! Filling a rectangle of the canvas: as a whole where it is plain, tile by
//! tile where one line parts it, and part by part where more crosses it.

use vstd::prelude::*;
use vstd::arithmetic::power2::*;
use vstd::arithmetic::div_mod::*;
use vstd::slice::slice_subrange;
use crate::bitmap::{BitmapEngine, MAX_TILE_ORDER};
use crate::coverage::{
    halfplane_region_fn, in_rect, lemma_all_fit_joined, lemma_all_fit_less, lemma_all_fit_part,
    lemma_level_leaf, lemma_level_pixel_leaf,
    lemma_level_pixel_split, lemma_rect_fits_inner, lemma_split_point, lemma_split_point_halves,
    lemma_split_point_tiles, level_cut, level_fn, level_kind, solid_fn, split_point,
    tile_fn, tile_size, with_rect,
};
use crate::polyline::Segment;
use crate::rasterizer::RasterizerData;
use crate::sound::{
    all_sound, lemma_all_sound_joined, lemma_all_sound_part, lemma_split_group_sound,
};
use crate::split::{
    all_fit, FillFlags, first_batch, get_fill_flags, lemma_split_group_fits,
    lemma_split_group_sizes, polyline_split_horz, polyline_split_vert, PolylineSplit, second_batch,
    split_group,
};
use crate::tiles::{fill_tile, lemma_tiles, MAX_EXTENT, region_ok, scale_for, tile_width};

verus! {

/// The largest power of two below `w`.
pub(crate) fn split_at(w: i32) -> (r: i32)
    requires
        2 <= w <= 0x4000_0000,
    ensures
        r == split_point(w as int),
        0 < r < w,
    decreases w,
{
    proof {
        lemma_split_point(w as int);
    }
    if w <= 2 {
        1
    } else {
        2 * split_at((w + 1) / 2)
    }
}

/// The winding number `w` leaves room for the cuts that a rectangle with
/// sides of at most `2^dx` and `2^dy` pixels still takes, each of which
/// moves it by less than `unit`.
pub open spec fn winding_credit(w: int, unit: int, depth: int) -> bool {
    -i32::MAX + unit * (depth + 1) <= w <= i32::MAX - unit * (depth + 1)
}

/// A rectangle that is left as it is holds what it held.
pub(crate) proof fn lemma_level_blank<E: BitmapEngine>(
    e: &E,
    before: Seq<u8>,
    stride: int,
    left: int,
    top: int,
    width: int,
    height: int,
    line0: Seq<Segment>,
    line1: Seq<Segment>,
    winding0: int,
    winding1: int,
)
    requires
        0 < stride,
        level_kind(e, width, height, line0, line1, winding0, winding1) is Blank,
    ensures
        with_rect(
            before,
            stride,
            left,
            top,
            width,
            height,
            level_fn(e, before, stride, left, top, width, height, line0, line1, winding0, winding1),
        ) == before,
{
    let painted = with_rect(
        before,
        stride,
        left,
        top,
        width,
        height,
        level_fn(e, before, stride, left, top, width, height, line0, line1, winding0, winding1),
    );
    assert forall|i: int| 0 <= i < before.len() implies painted[i] == before[i] by {
        lemma_fundamental_div_mod(i, stride);
        assert(stride * (i / stride) == (i / stride) * stride) by (nonlinear_arith);
        lemma_level_pixel_leaf(
            e,
            before[i],
            width,
            height,
            line0,
            line1,
            winding0,
            winding1,
            i % stride - left,
            i / stride - top,
        );
    }
    assert(painted =~= before);
}

/// A rectangle that is cut in two is painted once both parts are.
pub(crate) proof fn lemma_level_split<E: BitmapEngine>(
    e: &E,
    b0: Seq<u8>,
    b1: Seq<u8>,
    b2: Seq<u8>,
    stride: int,
    left: int,
    top: int,
    width: int,
    height: int,
    line0: Seq<Segment>,
    line1: Seq<Segment>,
    winding0: int,
    winding1: int,
)
    requires
        0 < stride,
        0 <= left,
        0 <= top,
        0 < width,
        0 < height,
        left + width <= stride,
        level_kind(e, width, height, line0, line1, winding0, winding1) is Split,
        width > height ==> 0 < split_point(width) < width,
        width <= height ==> 0 < split_point(height) < height,
        ({
            let cut = level_cut(width, height);
            let g0 = split_group(line0, winding0, cut);
            let g1 = split_group(line1, winding1, cut);
            if width > height {
                let p = split_point(width);
                &&& b1 == with_rect(
                    b0,
                    stride,
                    left,
                    top,
                    p,
                    height,
                    level_fn(
                        e,
                        b0,
                        stride,
                        left,
                        top,
                        p,
                        height,
                        g0.first,
                        g1.first,
                        winding0,
                        winding1,
                    ),
                )
                &&& b2 == with_rect(
                    b1,
                    stride,
                    left + p,
                    top,
                    width - p,
                    height,
                    level_fn(
                        e,
                        b1,
                        stride,
                        left + p,
                        top,
                        width - p,
                        height,
                        g0.second,
                        g1.second,
                        g0.winding,
                        g1.winding,
                    ),
                )
            } else {
                let p = split_point(height);
                &&& b1 == with_rect(
                    b0,
                    stride,
                    left,
                    top,
                    width,
                    p,
                    level_fn(
                        e,
                        b0,
                        stride,
                        left,
                        top,
                        width,
                        p,
                        g0.first,
                        g1.first,
                        winding0,
                        winding1,
                    ),
                )
                &&& b2 == with_rect(
                    b1,
                    stride,
                    left,
                    top + p,
                    width,
                    height - p,
                    level_fn(
                        e,
                        b1,
                        stride,
                        left,
                        top + p,
                        width,
                        height - p,
                        g0.second,
                        g1.second,
                        g0.winding,
                        g1.winding,
                    ),
                )
            }
        }),
    ensures
        b2 == with_rect(
            b0,
            stride,
            left,
            top,
            width,
            height,
            level_fn(e, b0, stride, left, top, width, height, line0, line1, winding0, winding1),
        ),
{
    let goal = with_rect(
        b0,
        stride,
        left,
        top,
        width,
        height,
        level_fn(e, b0, stride, left, top, width, height, line0, line1, winding0, winding1),
    );
    assert(b2.len() == goal.len());
    assert forall|i: int| 0 <= i < b2.len() implies b2[i] == goal[i] by {
        lemma_fundamental_div_mod(i, stride);
        lemma_mod_bound(i, stride);
        assert(stride * (i / stride) == (i / stride) * stride) by (nonlinear_arith);
        lemma_level_pixel_split(
            e,
            b0[i],
            width,
            height,
            line0,
            line1,
            winding0,
            winding1,
            i % stride - left,
            i / stride - top,
        );
    }
    assert(b2 =~= goal);
}

/// How a rectangle was cut in two, and what its two parts are painted from.
pub(crate) struct CutPlan {
    /// The cut is a vertical line: the parts lie side by side.
    pub(crate) horizontal: bool,
    /// How many pixels the first part is wide or high.
    pub(crate) p: i32,
    pub(crate) width: i32,
    pub(crate) height: i32,
    pub(crate) n_first: [usize; 2],
    pub(crate) n_second: [usize; 2],
    pub(crate) winding: [i32; 2],
}

impl CutPlan {
    pub(crate) closed spec fn width0(self) -> int {
        if self.horizontal {
            self.p as int
        } else {
            self.width as int
        }
    }

    pub(crate) closed spec fn height0(self) -> int {
        if self.horizontal {
            self.height as int
        } else {
            self.p as int
        }
    }

    pub(crate) closed spec fn width1(self) -> int {
        if self.horizontal {
            self.width - self.p
        } else {
            self.width as int
        }
    }

    pub(crate) closed spec fn height1(self) -> int {
        if self.horizontal {
            self.height as int
        } else {
            self.height - self.p
        }
    }
}

impl RasterizerData {
    /// Paints the rectangle at `(left, top)` from the segments of the two
    /// batches where that takes no cut. Says whether it did.
    pub(crate) fn fill_leaf<E: BitmapEngine>(
        engine: &E,
        buf: &mut [u8],
        left: usize,
        top: usize,
        width: i32,
        height: i32,
        stride: isize,
        line0: &[Segment],
        line1: &[Segment],
        winding: [i32; 2],
        tile: &mut [u8],
    ) -> (done: bool)
        requires
            region_ok(
                engine,
                old(buf)@.len(),
                stride as int,
                left as int,
                top as int,
                width as int,
                height as int,
            ),
            all_fit(line0@, 64 * width, 64 * height),
            all_fit(line1@, 64 * width, 64 * height),
            all_sound(line0@),
            all_sound(line1@),
            old(tile)@.len() >= tile_size(engine) * tile_size(engine),
            winding[0] < i32::MAX,
            winding[1] < i32::MAX,
        ensures
            final(tile)@.len() == old(tile)@.len(),
            done == !(level_kind(
                engine,
                width as int,
                height as int,
                line0@,
                line1@,
                winding[0] as int,
                winding[1] as int,
            ) is Split),
            !done ==> final(buf)@ == old(buf)@,
            done ==> final(buf)@ == with_rect(
                old(buf)@,
                stride as int,
                left as int,
                top as int,
                width as int,
                height as int,
                level_fn(
                    engine,
                    old(buf)@,
                    stride as int,
                    left as int,
                    top as int,
                    width as int,
                    height as int,
                    line0@,
                    line1@,
                    winding[0] as int,
                    winding[1] as int,
                ),
            ),
    {
        let ts: usize = tile_width(engine);
        let ghost st = stride as int;
        let ghost before = buf@;
        let ghost w0 = winding[0] as int;
        let ghost w1 = winding[1] as int;
        let ghost goal = level_fn(
            engine,
            before,
            st,
            left as int,
            top as int,
            width as int,
            height as int,
            line0@,
            line1@,
            w0,
            w1,
        );
        proof {
            lemma_all_fit_less(line0@, 64 * width, 64 * height, 0, 0);
            lemma_all_fit_less(line1@, 64 * width, 64 * height, 0, 0);
        }
        let flags0: FillFlags = get_fill_flags(line0, winding[0]);
        let flags1: FillFlags = get_fill_flags(line1, winding[1]);
        if flags0.solid || flags1.solid {
            Self::fill_solid(engine, buf, left, top, width, height, stride, 1);
            proof {
                lemma_level_leaf(
                    engine,
                    before,
                    st,
                    left as int,
                    top as int,
                    width as int,
                    height as int,
                    line0@,
                    line1@,
                    w0,
                    w1,
                    solid_fn(engine, 1),
                );
            }
            return true;
        }
        if !flags0.complex && !flags1.complex {
            proof {
                lemma_level_blank(
                    engine,
                    before,
                    st,
                    left as int,
                    top as int,
                    width as int,
                    height as int,
                    line0@,
                    line1@,
                    w0,
                    w1,
                );
            }
            return true;
        }
        if !flags0.generic && !flags1.generic && flags0.complex != flags1.complex {
            let l: Segment = if flags1.complex { line1[0] } else { line0[0] };
            let scale: i32 = scale_for(l.scale, flags0.reverse || flags1.reverse);
            proof {
                assert(l.fits(64 * width, 64 * height));
            }
            Self::fill_halfplane(
                engine,
                buf,
                left,
                top,
                width,
                height,
                stride,
                l.a,
                l.b,
                l.c,
                scale,
            );
            proof {
                lemma_level_leaf(
                    engine,
                    before,
                    st,
                    left as int,
                    top as int,
                    width as int,
                    height as int,
                    line0@,
                    line1@,
                    w0,
                    w1,
                    halfplane_region_fn(
                        engine,
                        l.a,
                        l.b,
                        l.c,
                        scale,
                        width as int,
                        height as int,
                        left as int,
                        top as int,
                    ),
                );
            }
            return true;
        }
        if width as usize == ts && height as usize == ts {
            fill_tile(engine, buf, stride, left, top, line0, line1, winding, tile);
            proof {
                lemma_level_leaf(
                    engine,
                    before,
                    st,
                    left as int,
                    top as int,
                    width as int,
                    height as int,
                    line0@,
                    line1@,
                    w0,
                    w1,
                    tile_fn(engine, line0@, line1@, w0, w1, left as int, top as int),
                );
            }
            return true;
        }
        false
    }

    /// Cuts the rectangle of the segments at the end of `mine` in two. The
    /// segments of the first part take their place at the end of `mine`,
    /// those of the second part are put at the end of `other`.
    #[verifier::rlimit(80)]
    #[verifier::spinoff_prover]
    pub(crate) fn cut_level<E: BitmapEngine>(
        engine: &E,
        width: i32,
        height: i32,
        mine: &mut Vec<Segment>,
        other: &mut Vec<Segment>,
        n_lines: [usize; 2],
        winding: [i32; 2],
        Ghost(unit): Ghost<int>,
        Ghost(dx): Ghost<nat>,
        Ghost(dy): Ghost<nat>,
    ) -> (plan: CutPlan)
        requires
            0 <= engine.spec_tile_order() <= MAX_TILE_ORDER,
            0 < width <= MAX_EXTENT,
            0 < height <= MAX_EXTENT,
            width as int % tile_size(engine) == 0,
            height as int % tile_size(engine) == 0,
            !(width == tile_size(engine) && height == tile_size(engine)),
            n_lines[0] + n_lines[1] <= old(mine)@.len(),
            all_fit(
                old(mine)@.subrange(
                    old(mine)@.len() - n_lines[0] - n_lines[1],
                    old(mine)@.len() as int,
                ),
                64 * width,
                64 * height,
            ),
            all_sound(
                old(mine)@.subrange(
                    old(mine)@.len() - n_lines[0] - n_lines[1],
                    old(mine)@.len() as int,
                ),
            ),
            width <= pow2(dx),
            height <= pow2(dy),
            n_lines[0] + n_lines[1] < unit,
            winding_credit(winding[0] as int, unit, (dx + dy) as int),
            winding_credit(winding[1] as int, unit, (dx + dy) as int),
        ensures
            ({
                let len = old(mine)@.len() as int;
                let offs = len - n_lines[0] - n_lines[1];
                let line0 = old(mine)@.subrange(offs, offs + n_lines[0]);
                let line1 = old(mine)@.subrange(offs + n_lines[0], len);
                let cut = level_cut(width as int, height as int);
                let g0 = split_group(line0, winding[0] as int, cut);
                let g1 = split_group(line1, winding[1] as int, cut);
                let long = if width > height { width } else { height };
                &&& ({
                    let dx1 = if width > height { dx - 1 } else { dx as int };
                    let dy1 = if width > height { dy as int } else { dy - 1 };
                    &&& plan.horizontal == (width > height)
                    &&& plan.p == split_point(long as int)
                    &&& 0 < plan.p < long
                    &&& plan.p as int % tile_size(engine) == 0
                    &&& (long - plan.p) % tile_size(engine) == 0
                    &&& dx1 >= 0
                    &&& dy1 >= 0
                    &&& plan.width0() <= pow2(dx1 as nat)
                    &&& plan.width1() <= pow2(dx1 as nat)
                    &&& plan.height0() <= pow2(dy1 as nat)
                    &&& plan.height1() <= pow2(dy1 as nat)
                    &&& plan.width == width
                    &&& plan.height == height
                    &&& final(mine)@ == old(mine)@.subrange(0, offs) + (g0.first + g1.first)
                    &&& final(other)@ == old(other)@ + (g0.second + g1.second)
                    &&& plan.n_first@ == seq![g0.first.len() as usize, g1.first.len() as usize]
                    &&& plan.n_second@ == seq![g0.second.len() as usize, g1.second.len() as usize]
                    &&& plan.winding@ == seq![g0.winding as i32, g1.winding as i32]
                    &&& plan.winding[0] == g0.winding
                    &&& plan.winding[1] == g1.winding
                    &&& g0.first.len() + g1.first.len() < unit
                    &&& g0.second.len() + g1.second.len() < unit
                    &&& all_fit(g0.first, 64 * plan.width0(), 64 * plan.height0())
                    &&& all_fit(g1.first, 64 * plan.width0(), 64 * plan.height0())
                    &&& all_fit(g0.second, 64 * plan.width1(), 64 * plan.height1())
                    &&& all_fit(g1.second, 64 * plan.width1(), 64 * plan.height1())
                    &&& winding_credit(winding[0] as int, unit, dx1 + dy1)
                    &&& winding_credit(winding[1] as int, unit, dx1 + dy1)
                    &&& winding_credit(g0.winding, unit, dx1 + dy1)
                    &&& winding_credit(g1.winding, unit, dx1 + dy1)
                    &&& all_sound(g0.first)
                    &&& all_sound(g1.first)
                    &&& all_sound(g0.second)
                    &&& all_sound(g1.second)
                })
            }),
    {
        let ts: usize = tile_width(engine);
        let len: usize = mine.len();
        let n0: usize = n_lines[0];
        let total: usize = n0 + n_lines[1];
        let offs: usize = len - total;
        let ghost line0 = mine@.subrange(offs as int, offs + n0);
        let ghost line1 = mine@.subrange(offs + n0, len as int);
        let ghost w0 = winding[0] as int;
        let ghost w1 = winding[1] as int;
        let horizontal: bool = width > height;
        let long: i32 = if horizontal { width } else { height };
        proof {
            lemma_tiles(width as int, ts as int);
            lemma_tiles(height as int, ts as int);
            let kx = width as int / ts as int;
            let ky = height as int / ts as int;
            assert(long > ts) by (nonlinear_arith)
                requires
                    kx * ts == width,
                    ky * ts == height,
                    kx >= 1,
                    ky >= 1,
                    !(width == ts && height == ts),
                    long == if width > height { width } else { height },
                    ts >= 1,
            ;
            lemma_split_point(long as int);
            lemma_split_point_tiles(long as int, engine.spec_tile_order() as nat);
            if horizontal {
                lemma_split_point_halves(long as int, dx);
            } else {
                lemma_split_point_halves(long as int, dy);
            }
            assert(unit * (dx + dy + 1) >= unit) by (nonlinear_arith)
                requires
                    unit > 0,
                    dx + dy + 1 >= 1,
            ;
        }
        let p: i32 = split_at(long);
        let at: i32 = 64 * p;
        let ghost cut = level_cut(width as int, height as int);
        let ghost g0 = split_group(line0, w0, cut);
        let ghost g1 = split_group(line1, w1, cut);
        let ghost dx1: int = if horizontal { dx - 1 } else { dx as int };
        let ghost dy1: int = if horizontal { dy as int } else { dy - 1 };
        let width0: i32 = if horizontal { p } else { width };
        let height0: i32 = if horizontal { height } else { p };
        let width1: i32 = if horizontal { width - p } else { width };
        let height1: i32 = if horizontal { height } else { height - p };
        proof {
            let tail = mine@.subrange(offs as int, len as int);
            assert(first_batch(tail, n0 as int) =~= line0);
            assert(second_batch(tail, n0 as int) =~= line1);
            lemma_all_fit_less(
                tail,
                64 * width,
                64 * height,
                if horizontal { at as int } else { 0 },
                if horizontal { 0 } else { at as int },
            );
            lemma_all_fit_part(tail, 0, n0 as int, 64 * width, 64 * height);
            lemma_all_fit_part(tail, n0 as int, total as int, 64 * width, 64 * height);
            assert(line0 =~= tail.subrange(0, n0 as int));
            assert(line1 =~= tail.subrange(n0 as int, total as int));
            lemma_all_sound_part(tail, 0, n0 as int);
            lemma_all_sound_part(tail, n0 as int, total as int);
            lemma_split_group_sound(line0, w0, cut, 64 * width, 64 * height);
            lemma_split_group_sound(line1, w1, cut, 64 * width, 64 * height);
            lemma_split_group_sizes(line0, w0, cut);
            lemma_split_group_sizes(line1, w1, cut);
            assert(unit * (dx1 + dy1 + 1) + unit == unit * (dx + dy + 1)) by (nonlinear_arith)
                requires
                    dx1 + dy1 + 1 == dx + dy,
            ;
            assert(unit * (dx1 + dy1 + 1) >= 0) by (nonlinear_arith)
                requires
                    unit > 0,
                    dx1 + dy1 + 1 >= 0,
            ;
        }
        let split = if horizontal {
            polyline_split_horz(slice_subrange(mine.as_slice(), offs, len), n_lines, winding, at)
        } else {
            polyline_split_vert(slice_subrange(mine.as_slice(), offs, len), n_lines, winding, at)
        };
        let mut s: PolylineSplit = match split {
            Ok(s) => s,
            Err(_) => vstd::pervasive::unreached(),
        };
        proof {
            lemma_split_group_fits(line0, w0, cut, 64 * width, 64 * height);
            lemma_split_group_fits(line1, w1, cut, 64 * width, 64 * height);
            lemma_all_fit_less(g0.first, 64 * width, 64 * height, 64 * width0, 64 * height0);
            lemma_all_fit_less(g1.first, 64 * width, 64 * height, 64 * width0, 64 * height0);
        }
        let plan = CutPlan {
            horizontal,
            p,
            width,
            height,
            n_first: s.n_first,
            n_second: s.n_second,
            winding: s.winding,
        };
        mine.truncate(offs);
        mine.append(&mut s.first);
        other.append(&mut s.second);
        plan
    }

    /// Paints the rectangle at `(left, top)` from the segments at the end of
    /// `mine`, of which the first `n_lines[0]` are one batch and the other
    /// `n_lines[1]` another. The segments are used up. Where the rectangle is
    /// cut in two, the segments of its second part are kept in `other` while
    /// the first part is painted.
    #[verifier::rlimit(80)]
    #[verifier::spinoff_prover]
    pub(crate) fn fill_level<E: BitmapEngine>(
        engine: &E,
        buf: &mut [u8],
        left: usize,
        top: usize,
        width: i32,
        height: i32,
        stride: isize,
        mine: &mut Vec<Segment>,
        other: &mut Vec<Segment>,
        tile: &mut [u8],
        n_lines: [usize; 2],
        winding: [i32; 2],
        Ghost(unit): Ghost<int>,
        Ghost(dx): Ghost<nat>,
        Ghost(dy): Ghost<nat>,
    )
        requires
            region_ok(
                engine,
                old(buf)@.len(),
                stride as int,
                left as int,
                top as int,
                width as int,
                height as int,
            ),
            n_lines[0] + n_lines[1] <= old(mine)@.len(),
            all_fit(
                old(mine)@.subrange(
                    old(mine)@.len() - n_lines[0] - n_lines[1],
                    old(mine)@.len() as int,
                ),
                64 * width,
                64 * height,
            ),
            all_sound(
                old(mine)@.subrange(
                    old(mine)@.len() - n_lines[0] - n_lines[1],
                    old(mine)@.len() as int,
                ),
            ),
            old(tile)@.len() >= tile_size(engine) * tile_size(engine),
            width <= pow2(dx),
            height <= pow2(dy),
            n_lines[0] + n_lines[1] < unit,
            winding_credit(winding[0] as int, unit, (dx + dy) as int),
            winding_credit(winding[1] as int, unit, (dx + dy) as int),
        ensures
            ({
                let len = old(mine)@.len() as int;
                let offs = len - n_lines[0] - n_lines[1];
                let line0 = old(mine)@.subrange(offs, offs + n_lines[0]);
                let line1 = old(mine)@.subrange(offs + n_lines[0], len);
                &&& final(tile)@.len() == old(tile)@.len()
                &&& final(buf)@.len() == old(buf)@.len()
                &&& final(buf)@ == with_rect(
                        old(buf)@,
                        stride as int,
                        left as int,
                        top as int,
                        width as int,
                        height as int,
                        level_fn(
                            engine,
                            old(buf)@,
                            stride as int,
                            left as int,
                            top as int,
                            width as int,
                            height as int,
                            line0,
                            line1,
                            winding[0] as int,
                            winding[1] as int,
                        ),
                    )
                &&& final(mine)@ == old(mine)@.subrange(0, offs)
                &&& final(other)@ == old(other)@
            }),
        decreases width + height,
    {
        let len: usize = mine.len();
        let n0: usize = n_lines[0];
        let total: usize = n0 + n_lines[1];
        let offs: usize = len - total;
        let ghost st = stride as int;
        let ghost before = buf@;
        let ghost line0 = mine@.subrange(offs as int, offs + n0);
        let ghost line1 = mine@.subrange(offs + n0, len as int);
        let ghost w0 = winding[0] as int;
        let ghost w1 = winding[1] as int;
        proof {
            let tail = mine@.subrange(offs as int, len as int);
            assert(line0 =~= tail.subrange(0, n0 as int));
            assert(line1 =~= tail.subrange(n0 as int, total as int));
            lemma_all_fit_part(tail, 0, n0 as int, 64 * width, 64 * height);
            lemma_all_fit_part(tail, n0 as int, total as int, 64 * width, 64 * height);
            lemma_all_sound_part(tail, 0, n0 as int);
            lemma_all_sound_part(tail, n0 as int, total as int);
            assert(unit * (dx + dy + 1) >= unit) by (nonlinear_arith)
                requires
                    unit > 0,
                    dx + dy + 1 >= 1,
            ;
        }
        let done: bool = Self::fill_leaf(
            engine,
            buf,
            left,
            top,
            width,
            height,
            stride,
            slice_subrange(mine.as_slice(), offs, offs + n0),
            slice_subrange(mine.as_slice(), offs + n0, len),
            winding,
            tile,
        );
        if done {
            mine.truncate(offs);
            return ;
        }
        let ghost cut = level_cut(width as int, height as int);
        let ghost g0 = split_group(line0, w0, cut);
        let ghost g1 = split_group(line1, w1, cut);
        let ghost kept = mine@.subrange(0, offs as int);
        let ghost spare = other@;
        let plan: CutPlan = Self::cut_level(
            engine,
            width,
            height,
            mine,
            other,
            n_lines,
            winding,
            Ghost(unit),
            Ghost(dx),
            Ghost(dy),
        );
        let p: i32 = plan.p;
        let horizontal: bool = plan.horizontal;
        let width0: i32 = if horizontal { p } else { width };
        let height0: i32 = if horizontal { height } else { p };
        let width1: i32 = if horizontal { width - p } else { width };
        let height1: i32 = if horizontal { height } else { height - p };
        let ghost dx1: nat = if horizontal { (dx - 1) as nat } else { dx };
        let ghost dy1: nat = if horizontal { dy } else { (dy - 1) as nat };
        proof {
            lemma_rect_fits_inner(
                before.len(),
                st,
                left as int,
                top as int,
                width as int,
                height as int,
                left as int,
                top as int,
                width0 as int,
                height0 as int,
            );
            lemma_rect_fits_inner(
                before.len(),
                st,
                left as int,
                top as int,
                width as int,
                height as int,
                if horizontal { left + p } else { left as int },
                if horizontal { top as int } else { top + p },
                width1 as int,
                height1 as int,
            );
            lemma_all_fit_joined(g0.first, g1.first, 64 * width0, 64 * height0);
            lemma_all_fit_joined(g0.second, g1.second, 64 * width1, 64 * height1);
            lemma_all_sound_joined(g0.first, g1.first);
            lemma_all_sound_joined(g0.second, g1.second);
            lemma_split_point(if horizontal { width as int } else { height as int });
            assert(mine@.subrange(offs as int, mine@.len() as int) =~= g0.first + g1.first);
            assert(mine@.subrange(offs as int, offs + plan.n_first[0]) =~= g0.first);
            assert(mine@.subrange(offs + plan.n_first[0], mine@.len() as int) =~= g1.first);
            assert(other@.subrange(spare.len() as int, other@.len() as int) =~= g0.second
                + g1.second);
            assert(other@.subrange(spare.len() as int, spare.len() + plan.n_second[0])
                =~= g0.second);
            assert(other@.subrange(spare.len() + plan.n_second[0], other@.len() as int)
                =~= g1.second);
        }
        let buf_len: usize = buf.len();
        let left1: usize = if horizontal { left + p as usize } else { left };
        let top1: usize = if horizontal { top } else { top + p as usize };
        let ghost other1 = other@;
        Self::fill_level(
            engine,
            buf,
            left,
            top,
            width0,
            height0,
            stride,
            mine,
            other,
            tile,
            plan.n_first,
            winding,
            Ghost(unit),
            Ghost(dx1),
            Ghost(dy1),
        );
        let ghost b1 = buf@;
        proof {
            assert(mine@ =~= kept);
            assert(other@ == other1);
        }
        Self::fill_level(
            engine,
            buf,
            left1,
            top1,
            width1,
            height1,
            stride,
            other,
            mine,
            tile,
            plan.n_second,
            plan.winding,
            Ghost(unit),
            Ghost(dx1),
            Ghost(dy1),
        );
        proof {
            assert(other@ =~= spare);
            lemma_level_split(
                engine,
                before,
                b1,
                buf@,
                st,
                left as int,
                top as int,
                width as int,
                height as int,
                line0,
                line1,
                w0,
                w1,
            );
        }
    }
}

} // verus!
