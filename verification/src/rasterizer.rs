//! The rasterizer: it gathers the segments of a shape and fills them into a canvas.

use vstd::prelude::*;
use vstd::arithmetic::power2::*;
use vstd::arithmetic::div_mod::*;
use aligned_box::AlignedBox;
use crate::outline::Segment as OutlineShape;
use crate::bitmap::{
    BitmapEngine, box_bytes_mut, boxed_bytes, map_allocation_error, MAX_TILE_ORDER, zeroed_box,
};
use crate::coverage::{
    in_rect, lemma_all_fit_joined, lemma_all_fit_less, lemma_all_fit_part, level_fn,
    with_rect,
};
use crate::error::RasterError;
use crate::flatten::{
    all_fresh, flatten_cubic, flatten_quadratic, flatten_shape, flatten_shapes, fresh,
    line_segments, MAX_SUBDIVISION_DEPTH, push_cubic, push_line, push_quadratic,
};
use crate::outline::{Outline, Rect, Vector};
use crate::polyline::Segment;
use crate::sound::{
    all_sound, lemma_all_sound_joined, lemma_all_sound_part, lemma_mul_order,
    lemma_split_group_sound, sound,
};
use crate::split::{
    all_fit, Cut, first_batch, lemma_split_group_fits, lemma_split_group_sizes,
    polyline_split_horz, polyline_split_vert, PolylineSplit, second_batch, split_group,
};
use crate::tiles::{MAX_EXTENT, region_ok};
use crate::utils::{i64_mul, lemma_product_bound, pow2_usize};
pub use crate::polyline::Segment as PolylineSegment;

verus! {

/// No more than this many segments are filled at once.
pub const MAX_SEGMENTS: usize = 0x100_0000;

/// The segment seen from an origin that lies `dx` units further right and
/// `dy` units further down.
pub open spec fn translated(s: Segment, dx: int, dy: int) -> Segment {
    Segment {
        x_min: (s.x_min - dx) as i32,
        x_max: (s.x_max - dx) as i32,
        y_min: (s.y_min - dy) as i32,
        y_max: (s.y_max - dy) as i32,
        c: (s.c - (s.a * dx + s.b * dy)) as i64,
        ..s
    }
}

/// The segments seen from an origin that lies `dx` units further right and
/// `dy` units further down.
pub open spec fn translated_all(lines: Seq<Segment>, dx: int, dy: int) -> Seq<Segment> {
    Seq::new(lines.len(), |i: int| translated(lines[i], dx, dy))
}

/// The two batches of a shape on their way to the canvas, with the winding
/// numbers at the upper left corner of what is left of the plane.
pub struct ClipStage {
    pub line0: Seq<Segment>,
    pub line1: Seq<Segment>,
    pub winding0: int,
    pub winding1: int,
}

impl ClipStage {
    /// What lies before the cut is kept, the rest is dropped.
    pub open spec fn keep_first(self, cut: Cut) -> ClipStage {
        let g0 = split_group(self.line0, 0, cut);
        let g1 = split_group(self.line1, 0, cut);
        ClipStage { line0: g0.first, line1: g1.first, ..self }
    }

    /// What lies behind the cut is kept, and the winding numbers are taken
    /// to where it begins.
    pub open spec fn keep_second(self, cut: Cut) -> ClipStage {
        let g0 = split_group(self.line0, self.winding0, cut);
        let g1 = split_group(self.line1, self.winding1, cut);
        ClipStage {
            line0: g0.second,
            line1: g1.second,
            winding0: g0.winding,
            winding1: g1.winding,
        }
    }
}

/// Which sides of a canvas the box of a shape reaches or passes.
pub struct Sides {
    pub right: bool,
    pub bottom: bool,
    pub left: bool,
    pub top: bool,
}

/// The sides of a canvas of `size_x` by `size_y` units at the origin that
/// the box reaches or passes once it is taken `dx` units to the left and
/// `dy` units up.
pub open spec fn sides_reached(bbox: Rect, dx: int, dy: int, size_x: int, size_y: int) -> Sides {
    Sides {
        right: bbox.x_max - dx >= size_x,
        bottom: bbox.y_max - dy >= size_y,
        left: bbox.x_min - dx <= 0,
        top: bbox.y_min - dy <= 0,
    }
}

/// The shape cut at each side of the canvas that its box reaches or passes:
/// first at the right and the bottom side, where what lies outside is
/// dropped, then at the left and the top side, where what lies outside
/// goes into the winding numbers.
pub open spec fn clip_all(start: ClipStage, sides: Sides, size_x: i32, size_y: i32) -> ClipStage {
    let right = if sides.right {
        start.keep_first(Cut::Horz(size_x))
    } else {
        start
    };
    let bottom = if sides.bottom {
        right.keep_first(Cut::Vert(size_y))
    } else {
        right
    };
    let left = if sides.left {
        bottom.keep_second(Cut::Horz(0))
    } else {
        bottom
    };
    if sides.top {
        left.keep_second(Cut::Vert(0))
    } else {
        left
    }
}

/// What of a shape is left on a canvas of `width` by `height` pixels whose
/// upper left corner lies at pixel `(x0, y0)`: the segments are taken to
/// the corner of the canvas, and the shape is cut at the sides of the canvas.
pub open spec fn fill_input(r: RasterizerView, x0: int, y0: int, width: int, height: int) -> ClipStage {
    let lines = translated_all(r.lines, 64 * x0, 64 * y0);
    let start = ClipStage {
        line0: lines.subrange(0, r.n_first as int),
        line1: lines.subrange(r.n_first as int, lines.len() as int),
        winding0: 0,
        winding1: 0,
    };
    clip_all(
        start,
        sides_reached(r.bbox, 64 * x0, 64 * y0, 64 * width, 64 * height),
        (64 * width) as i32,
        (64 * height) as i32,
    )
}

/// The pixels of the canvas after the shape was filled into a buffer that held `before`.
pub open spec fn fill_fn<E: BitmapEngine>(
    e: &E,
    r: RasterizerView,
    before: Seq<u8>,
    stride: int,
    x0: int,
    y0: int,
    width: int,
    height: int,
) -> spec_fn(int, int) -> u8 {
    let c = fill_input(r, x0, y0, width, height);
    level_fn(e, before, stride, 0, 0, width, height, c.line0, c.line1, c.winding0, c.winding1)
}

/// A rasterizer without segments fills nothing: every pixel of the canvas
/// is left as it was.
pub proof fn lemma_fill_nothing<E: BitmapEngine>(
    e: &E,
    r: RasterizerView,
    before: Seq<u8>,
    stride: int,
    x0: int,
    y0: int,
    width: int,
    height: int,
)
    requires
        r.lines.len() == 0,
        r.n_first == 0,
        0 < stride,
    ensures
        with_rect(before, stride, 0, 0, width, height, fill_fn(
            e,
            r,
            before,
            stride,
            x0,
            y0,
            width,
            height,
        )) == before,
{
    let lines = translated_all(r.lines, 64 * x0, 64 * y0);
    let none = Seq::<Segment>::empty();
    assert(lines =~= none);
    assert(lines.subrange(0, 0) =~= none);
    let start = ClipStage { line0: none, line1: none, winding0: 0, winding1: 0 };
    let sides = sides_reached(r.bbox, 64 * x0, 64 * y0, 64 * width, 64 * height);
    let size_x = (64 * width) as i32;
    let size_y = (64 * height) as i32;
    assert(start.keep_first(Cut::Horz(size_x)) == start);
    assert(start.keep_first(Cut::Vert(size_y)) == start);
    assert(start.keep_second(Cut::Horz(0)) == start);
    assert(start.keep_second(Cut::Vert(0)) == start);
    assert(clip_all(start, sides, size_x, size_y) == start);
    assert(fill_input(r, x0, y0, width, height) == start);
    crate::level::lemma_level_blank(e, before, stride, 0, 0, width, height, none, none, 0, 0);
}

/// A segment as flattening left it, taken to the corner of a canvas, leaves
/// room for every cut that filling the canvas takes.
proof fn lemma_translated_fits(s: Segment, dx: int, dy: int)
    requires
        fresh(s),
        -0x1000_0000 <= dx <= 0x1000_0000,
        -0x1000_0000 <= dy <= 0x1000_0000,
    ensures
        translated(s, dx, dy).fits(0x1000_0000, 0x1000_0000),
        translated(s, dx, dy).c == s.c - (s.a * dx + s.b * dy),
        translated(s, dx, dy).x_min == s.x_min - dx,
        translated(s, dx, dy).x_max == s.x_max - dx,
        translated(s, dx, dy).y_min == s.y_min - dy,
        translated(s, dx, dy).y_max == s.y_max - dy,
        sound(translated(s, dx, dy)),
{
    lemma_product_bound(s.a as int, dx, 0x8000_0000, 0x1000_0000);
    lemma_product_bound(s.b as int, dy, 0x8000_0000, 0x1000_0000);
    lemma_mul_order(s.a as int, s.x_min as int, dx);
    lemma_mul_order(s.a as int, s.x_max as int, dx);
    lemma_mul_order(s.b as int, s.y_min as int, dy);
    lemma_mul_order(s.b as int, s.y_max as int, dy);
}

/// Takes every segment to an origin that lies `dx` units further right and
/// `dy` units further down.
fn translate_lines(lines: &mut Vec<Segment>, dx: i32, dy: i32)
    requires
        all_fresh(old(lines)@),
        -0x1000_0000 <= dx <= 0x1000_0000,
        -0x1000_0000 <= dy <= 0x1000_0000,
    ensures
        final(lines)@ == translated_all(old(lines)@, dx as int, dy as int),
        all_fit(final(lines)@, 0x1000_0000, 0x1000_0000),
        all_sound(final(lines)@),
{
    let n: usize = lines.len();
    let mut i: usize = 0;
    while i < n
        invariant
            n == lines@.len(),
            n == old(lines)@.len(),
            0 <= i <= n,
            all_fresh(old(lines)@),
            -0x1000_0000 <= dx <= 0x1000_0000,
            -0x1000_0000 <= dy <= 0x1000_0000,
            forall|k: int| 0 <= k < i ==> #[trigger] lines@[k] == translated(old(lines)@[k], dx as int, dy as int),
            forall|k: int| i <= k < n ==> #[trigger] lines@[k] == old(lines)@[k],
        decreases n - i,
    {
        let mut line: Segment = lines[i];
        proof {
            assert(fresh(old(lines)@[i as int]));
            lemma_translated_fits(line, dx as int, dy as int);
            lemma_product_bound(line.a as int, dx as int, 0x8000_0000, 0x1000_0000);
            lemma_product_bound(line.b as int, dy as int, 0x8000_0000, 0x1000_0000);
        }
        line.x_min = line.x_min - dx;
        line.x_max = line.x_max - dx;
        line.y_min = line.y_min - dy;
        line.y_max = line.y_max - dy;
        line.c = line.c - (i64_mul(line.a, dx) + i64_mul(line.b, dy));
        lines[i] = line;
        i = i + 1;
    }
    proof {
        assert(lines@ =~= translated_all(old(lines)@, dx as int, dy as int));
        assert forall|k: int| 0 <= k < lines@.len() implies (#[trigger] lines@[k]).fits(
            0x1000_0000,
            0x1000_0000,
        ) && sound(lines@[k]) by {
            assert(fresh(old(lines)@[k]));
            lemma_translated_fits(old(lines)@[k], dx as int, dy as int);
        }
    }
}

/// One cut of a shape at a side of the canvas.
fn clip_stage(
    lines: Vec<Segment>,
    n_lines: [usize; 2],
    winding: [i32; 2],
    horizontal: bool,
    at: i32,
    keep_second: bool,
    Ghost(stage): Ghost<ClipStage>,
    Ghost(room_x): Ghost<int>,
    Ghost(room_y): Ghost<int>,
    Ghost(bound): Ghost<int>,
) -> (r: (Vec<Segment>, [usize; 2], [i32; 2]))
    requires
        all_sound(lines@),
        lines@ == stage.line0 + stage.line1,
        n_lines[0] == stage.line0.len(),
        n_lines[1] == stage.line1.len(),
        winding[0] == stage.winding0,
        winding[1] == stage.winding1,
        !keep_second ==> winding[0] == 0 && winding[1] == 0,
        lines@.len() <= MAX_SEGMENTS,
        0 <= bound <= 2 * MAX_SEGMENTS,
        -bound <= winding[0] <= bound,
        -bound <= winding[1] <= bound,
        0 <= room_x <= 0x1000_0000,
        0 <= room_y <= 0x1000_0000,
        all_fit(lines@, room_x, room_y),
        0 <= at,
        horizontal ==> at <= room_x,
        !horizontal ==> at <= room_y,
        keep_second ==> at == 0,
    ensures
        ({
            let cut = if horizontal { Cut::Horz(at) } else { Cut::Vert(at) };
            let after = if keep_second { stage.keep_second(cut) } else { stage.keep_first(cut) };
            &&& r.0@ == after.line0 + after.line1
            &&& r.1[0] == after.line0.len()
            &&& r.1[1] == after.line1.len()
            &&& r.2[0] == after.winding0
            &&& r.2[1] == after.winding1
            &&& r.0@.len() <= lines@.len()
            &&& all_fit(r.0@, room_x, room_y)
            &&& all_sound(r.0@)
            &&& !keep_second ==> r.2[0] == 0 && r.2[1] == 0
            &&& -bound - lines@.len() <= r.2[0] <= bound + lines@.len()
            &&& -bound - lines@.len() <= r.2[1] <= bound + lines@.len()
        }),
{
    let ghost cut = if horizontal { Cut::Horz(at) } else { Cut::Vert(at) };
    let ghost g0 = split_group(stage.line0, winding[0] as int, cut);
    let ghost g1 = split_group(stage.line1, winding[1] as int, cut);
    proof {
        assert(first_batch(lines@, n_lines[0] as int) =~= stage.line0);
        assert(second_batch(lines@, n_lines[0] as int) =~= stage.line1);
        assert(stage.line0 =~= lines@.subrange(0, n_lines[0] as int));
        assert(stage.line1 =~= lines@.subrange(n_lines[0] as int, lines@.len() as int));
        lemma_all_fit_part(lines@, 0, n_lines[0] as int, room_x, room_y);
        lemma_all_fit_part(lines@, n_lines[0] as int, lines@.len() as int, room_x, room_y);
        lemma_all_fit_less(
            lines@,
            room_x,
            room_y,
            if horizontal { at as int } else { 0 },
            if horizontal { 0 } else { at as int },
        );
        lemma_split_group_sizes(stage.line0, winding[0] as int, cut);
        lemma_split_group_sizes(stage.line1, winding[1] as int, cut);
        lemma_all_sound_part(lines@, 0, n_lines[0] as int);
        lemma_all_sound_part(lines@, n_lines[0] as int, lines@.len() as int);
        lemma_split_group_sound(stage.line0, winding[0] as int, cut, room_x, room_y);
        lemma_split_group_sound(stage.line1, winding[1] as int, cut, room_x, room_y);
        lemma_all_sound_joined(g0.first, g1.first);
        lemma_all_sound_joined(g0.second, g1.second);
    }
    let split = if horizontal {
        polyline_split_horz(lines.as_slice(), n_lines, winding, at)
    } else {
        polyline_split_vert(lines.as_slice(), n_lines, winding, at)
    };
    let s: PolylineSplit = match split {
        Ok(s) => s,
        Err(_) => vstd::pervasive::unreached(),
    };
    proof {
        lemma_split_group_fits(stage.line0, winding[0] as int, cut, room_x, room_y);
        lemma_split_group_fits(stage.line1, winding[1] as int, cut, room_x, room_y);
        lemma_all_fit_joined(g0.first, g1.first, room_x, room_y);
        if keep_second {
            lemma_all_fit_joined(g0.second, g1.second, room_x, room_y);
        }
    }
    if keep_second {
        (s.second, s.n_second, s.winding)
    } else {
        (s.first, s.n_first, winding)
    }
}

/// Cuts a shape at the sides of the canvas that its box reaches or passes.
fn clip_to_canvas(
    lines: Vec<Segment>,
    n_first: usize,
    sides: Sides,
    size_x: i32,
    size_y: i32,
) -> (r: (Vec<Segment>, [usize; 2], [i32; 2]))
    requires
        all_sound(lines@),
        n_first <= lines@.len() <= MAX_SEGMENTS,
        0 <= size_x <= 0x1000_0000,
        0 <= size_y <= 0x1000_0000,
        all_fit(lines@, size_x as int, size_y as int),
    ensures
        ({
            let start = ClipStage {
                line0: lines@.subrange(0, n_first as int),
                line1: lines@.subrange(n_first as int, lines@.len() as int),
                winding0: 0,
                winding1: 0,
            };
            let after = clip_all(start, sides, size_x, size_y);
            &&& r.0@ == after.line0 + after.line1
            &&& r.1[0] == after.line0.len()
            &&& r.1[1] == after.line1.len()
            &&& r.2[0] == after.winding0
            &&& r.2[1] == after.winding1
            &&& r.0@.len() <= MAX_SEGMENTS
            &&& all_fit(r.0@, size_x as int, size_y as int)
            &&& all_sound(r.0@)
            &&& -2 * MAX_SEGMENTS <= r.2[0] <= 2 * MAX_SEGMENTS
            &&& -2 * MAX_SEGMENTS <= r.2[1] <= 2 * MAX_SEGMENTS
        }),
{
    let ghost room_x = size_x as int;
    let ghost room_y = size_y as int;
    let ghost start = ClipStage {
        line0: lines@.subrange(0, n_first as int),
        line1: lines@.subrange(n_first as int, lines@.len() as int),
        winding0: 0,
        winding1: 0,
    };
    proof {
        assert(lines@ =~= start.line0 + start.line1);
    }
    let n_lines: [usize; 2] = [n_first, lines.len() - n_first];
    let winding: [i32; 2] = [0, 0];
    let first = (lines, n_lines, winding);
    let second = if sides.right {
        clip_stage(
            first.0,
            first.1,
            first.2,
            true,
            size_x,
            false,
            Ghost(start),
            Ghost(room_x),
            Ghost(room_y),
            Ghost(0),
        )
    } else {
        first
    };
    let ghost right = if sides.right { start.keep_first(Cut::Horz(size_x)) } else { start };
    let third = if sides.bottom {
        clip_stage(
            second.0,
            second.1,
            second.2,
            false,
            size_y,
            false,
            Ghost(right),
            Ghost(room_x),
            Ghost(room_y),
            Ghost(0),
        )
    } else {
        second
    };
    let ghost bottom = if sides.bottom { right.keep_first(Cut::Vert(size_y)) } else { right };
    let fourth = if sides.left {
        clip_stage(
            third.0,
            third.1,
            third.2,
            true,
            0,
            true,
            Ghost(bottom),
            Ghost(room_x),
            Ghost(room_y),
            Ghost(0),
        )
    } else {
        third
    };
    let ghost left = if sides.left { bottom.keep_second(Cut::Horz(0)) } else { bottom };
    let last = if sides.top {
        clip_stage(
            fourth.0,
            fourth.1,
            fourth.2,
            false,
            0,
            true,
            Ghost(left),
            Ghost(room_x),
            Ghost(room_y),
            Ghost(MAX_SEGMENTS as int),
        )
    } else {
        fourth
    };
    last
}

/// The box `r` widened by the boxes of the segments `segs`.
pub open spec fn widened_by_boxes(r: Rect, segs: Seq<Segment>) -> Rect
    decreases segs.len(),
{
    if segs.len() == 0 {
        r
    } else {
        let s = segs.last();
        widened_by_boxes(r, segs.drop_last()).widened(s.x_min, s.y_min, s.x_max, s.y_max)
    }
}

/// The box `r` holds the box of every segment of `segs`.
pub open spec fn box_holds(r: Rect, segs: Seq<Segment>) -> bool {
    forall|k: int|
        0 <= k < segs.len() ==> r.x_min <= (#[trigger] segs[k]).x_min && segs[k].x_max <= r.x_max
            && r.y_min <= segs[k].y_min && segs[k].y_max <= r.y_max
}

/// A box widened by the boxes of segments holds what it held, and those segments.
pub proof fn lemma_widened_by_boxes(r: Rect, held: Seq<Segment>, segs: Seq<Segment>)
    requires
        box_holds(r, held),
    ensures
        r.within(widened_by_boxes(r, segs)),
        box_holds(widened_by_boxes(r, segs), held),
        box_holds(widened_by_boxes(r, segs), segs),
        box_holds(widened_by_boxes(r, segs), held + segs),
    decreases segs.len(),
{
    let w = widened_by_boxes(r, segs);
    if segs.len() > 0 {
        lemma_widened_by_boxes(r, held, segs.drop_last());
        let before = widened_by_boxes(r, segs.drop_last());
        assert forall|k: int| 0 <= k < segs.len() implies w.x_min <= (#[trigger] segs[k]).x_min
            && segs[k].x_max <= w.x_max && w.y_min <= segs[k].y_min && segs[k].y_max
            <= w.y_max by {
            if k < segs.len() - 1 {
                assert(segs[k] == segs.drop_last()[k]);
            }
        }
        assert forall|k: int| 0 <= k < held.len() implies w.x_min <= (#[trigger] held[k]).x_min
            && held[k].x_max <= w.x_max && w.y_min <= held[k].y_min && held[k].y_max
            <= w.y_max by {
            assert(before.x_min <= held[k].x_min);
        }
    }
    assert forall|k: int| 0 <= k < (held + segs).len() implies w.x_min <= (#[trigger] (held
        + segs)[k]).x_min && (held + segs)[k].x_max <= w.x_max && w.y_min <= (held
        + segs)[k].y_min && (held + segs)[k].y_max <= w.y_max by {
        if k < held.len() {
            assert((held + segs)[k] == held[k]);
        } else {
            assert((held + segs)[k] == segs[k - held.len()]);
        }
    }
}

/// What a rasterizer holds, as plain values.
pub struct RasterizerView {
    /// The tolerance with which curves are flattened.
    pub outline_error: i32,
    /// The box that holds the segments that count.
    pub bbox: Rect,
    /// The segments of the shape: those of the first batch, then the others.
    pub lines: Seq<Segment>,
    /// How many segments the first batch has.
    pub n_first: nat,
    /// The tile order that the scratch tile was made for.
    pub tile_order: nat,
}

impl RasterizerView {
    /// The rasterizer after an outline was set.
    ///
    /// Where `extra` is not set the outline starts a shape of its own:
    /// nothing older is kept, the segments of the flattened outline are the
    /// first batch, and the box is the one that holds just them. Where it
    /// is set the outline joins the shape that is there: its segments are
    /// appended behind the first batch, and the box is widened by them.
    pub open spec fn with_outline(self, shapes: Seq<OutlineShape>, extra: bool) -> RasterizerView {
        let added = flatten_shapes(shapes, self.outline_error);
        if extra {
            RasterizerView {
                lines: self.lines + added,
                bbox: widened_by_boxes(self.bbox, added),
                ..self
            }
        } else {
            RasterizerView {
                lines: added,
                bbox: widened_by_boxes(Rect::empty(), added),
                n_first: added.len(),
                ..self
            }
        }
    }
}

/// The working state of a rasterizer: the segments of the shape that is to
/// be drawn, in two batches, the box that holds them, and scratch space.
pub struct RasterizerData {
    outline_error: i32,
    bbox: Rect,
    /// The segments of the shape: those of the first batch, then the others.
    lines: Vec<Segment>,
    /// Room for the segments of the second parts of rectangles that were cut.
    spare: Vec<Segment>,
    n_first: usize,
    tile_order: usize,
    tile: AlignedBox<[u8]>,
}

impl View for RasterizerData {
    type V = RasterizerView;

    closed spec fn view(&self) -> RasterizerView {
        RasterizerView {
            outline_error: self.outline_error,
            bbox: self.bbox,
            lines: self.lines@,
            n_first: self.n_first as nat,
            tile_order: self.tile_order as nat,
        }
    }
}

impl RasterizerData {
    /// The first batch lies within the segments, every segment is as
    /// flattening leaves it and lies within the box, and the scratch space
    /// is there and empty.
    pub closed spec fn wf(&self) -> bool {
        &&& self.n_first <= self.lines@.len()
        &&& all_fresh(self.lines@)
        &&& box_holds(self.bbox, self.lines@)
        &&& self.spare@.len() == 0
        &&& self.tile_order <= MAX_TILE_ORDER
        &&& boxed_bytes(self.tile).len() == pow2(self.tile_order as nat) * pow2(
            self.tile_order as nat,
        )
    }

    /// What `wf` says of the view.
    pub proof fn lemma_wf(&self)
        requires
            self.wf(),
        ensures
            self@.n_first <= self@.lines.len(),
            all_fresh(self@.lines),
            box_holds(self@.bbox, self@.lines),
            self@.tile_order <= MAX_TILE_ORDER,
    {
    }

    /// Widens the box by the segments that were added behind those of
    /// `held`, which the box holds: it then holds them all.
    fn widen_added(&mut self, Ghost(held): Ghost<Seq<Segment>>, from: usize)
        requires
            from == held.len(),
            from <= old(self).lines@.len(),
            old(self).lines@.subrange(0, from as int) == held,
            box_holds(old(self).bbox, held),
        ensures
            final(self).bbox == widened_by_boxes(
                old(self).bbox,
                old(self).lines@.subrange(from as int, old(self).lines@.len() as int),
            ),
            box_holds(final(self).bbox, final(self).lines@),
            final(self).lines == old(self).lines,
            final(self).spare == old(self).spare,
            final(self).tile == old(self).tile,
            final(self).n_first == old(self).n_first,
            final(self).tile_order == old(self).tile_order,
            final(self).outline_error == old(self).outline_error,
    {
        self.widen_from(from);
        proof {
            let behind = self.lines@.subrange(from as int, self.lines@.len() as int);
            lemma_widened_by_boxes(old(self).bbox, held, behind);
            assert(held + behind =~= self.lines@);
        }
    }

    /// Widens the box by the segments from `from` on.
    fn widen_from(&mut self, from: usize)
        requires
            from <= old(self).lines@.len(),
        ensures
            final(self).bbox == widened_by_boxes(
                old(self).bbox,
                old(self).lines@.subrange(from as int, old(self).lines@.len() as int),
            ),
            final(self).lines == old(self).lines,
            final(self).spare == old(self).spare,
            final(self).tile == old(self).tile,
            final(self).n_first == old(self).n_first,
            final(self).tile_order == old(self).tile_order,
            final(self).outline_error == old(self).outline_error,
    {
        let n: usize = self.lines.len();
        let mut k: usize = from;
        proof {
            assert(self.lines@.subrange(from as int, from as int) =~= Seq::<Segment>::empty());
        }
        while k < n
            invariant
                self.lines == old(self).lines,
                self.spare == old(self).spare,
                self.tile == old(self).tile,
                self.n_first == old(self).n_first,
                self.tile_order == old(self).tile_order,
                self.outline_error == old(self).outline_error,
                n == self.lines@.len(),
                from <= k <= n,
                self.bbox == widened_by_boxes(
                    old(self).bbox,
                    self.lines@.subrange(from as int, k as int),
                ),
            decreases n - k,
        {
            let line: Segment = self.lines[k];
            proof {
                let upto = self.lines@.subrange(from as int, k + 1);
                assert(upto.drop_last() =~= self.lines@.subrange(from as int, k as int));
                assert(upto.last() == line);
            }
            self.bbox.update(line.x_min, line.y_min, line.x_max, line.y_max);
            k = k + 1;
        }
    }

    /// A rasterizer without segments for an engine whose tiles are
    /// `2^tile_order` pixels wide, which flattens curves with the tolerance
    /// `outline_error`.
    pub fn new(tile_order: usize, outline_error: i32) -> (r: Result<Self, RasterError>)
        ensures
            tile_order > MAX_TILE_ORDER ==> r == Err::<Self, RasterError>(
                RasterError::AllocationOverflow,
            ),
            tile_order <= MAX_TILE_ORDER ==> match r {
                Ok(d) => d.wf() && d@ == (RasterizerView {
                    outline_error,
                    bbox: Rect { x_min: 0, y_min: 0, x_max: 0, y_max: 0 },
                    lines: Seq::empty(),
                    n_first: 0,
                    tile_order: tile_order as nat,
                }),
                Err(e) => e == RasterError::AllocationFailed,
            },
    {
        if tile_order > MAX_TILE_ORDER as usize {
            return Err(RasterError::AllocationOverflow);
        }
        let ts: usize = pow2_usize(tile_order as u32);
        proof {
            lemma2_to64();
            if tile_order < 8 {
                lemma_pow2_strictly_increases(tile_order as nat, 8);
            }
            lemma_product_bound(ts as int, ts as int, 256, 256);
            assert(ts * ts >= 1) by (nonlinear_arith)
                requires
                    ts >= 1,
            ;
        }
        match zeroed_box(32, ts * ts) {
            Ok(tile) => Ok(
                RasterizerData {
                    outline_error,
                    bbox: Rect::default(),
                    lines: Vec::new(),
                    spare: Vec::new(),
                    n_first: 0,
                    tile_order,
                    tile,
                },
            ),
            Err(e) => Err(map_allocation_error(e)),
        }
    }

    /// The segments of the shape: those of the first batch, then the others.
    pub fn lines(&self) -> (r: &[Segment])
        ensures
            r@ == self@.lines,
    {
        self.lines.as_slice()
    }

    /// How many segments the first batch has.
    pub fn n_first(&self) -> (r: usize)
        ensures
            r == self@.n_first,
    {
        self.n_first
    }

    /// The box that holds the segments that count.
    pub fn bbox(&self) -> (r: Rect)
        ensures
            r == self@.bbox,
    {
        self.bbox
    }

    /// The tolerance with which curves are flattened.
    pub fn outline_error(&self) -> (r: i32)
        ensures
            r == self@.outline_error,
    {
        self.outline_error
    }

    /// The tile order that the scratch tile was made for.
    pub fn tile_order(&self) -> (r: usize)
        ensures
            r == self@.tile_order,
    {
        self.tile_order
    }

    /// Flattens the segments of `path` into the rasterizer: as a shape of
    /// its own, in place of what was there, or where `extra` is set as
    /// one more contour of the shape that is there. Every contour of `path`
    /// is to be closed.
    pub fn set_outline(&mut self, path: &Outline, extra: bool)
        requires
            old(self).wf(),
            path.wf(),
            path@.open_start is None,
        ensures
            final(self).wf(),
            final(self)@ == old(self)@.with_outline(path@.segments(), extra),
    {
        if !extra {
            self.lines.clear();
            self.bbox.reset();
            self.n_first = 0;
        }
        let from: usize = self.lines.len();
        let ghost all = path@.segments();
        let ghost start = self.lines@;
        let ghost bbox0 = self.bbox;
        let ghost done: Seq<OutlineShape> = Seq::empty();
        proof {
            path.lemma_segments_in_range();
            assert(start + flatten_shapes(done, self.outline_error) =~= start);
        }
        let mut it = path.segments();
        let mut next: Option<OutlineShape> = it.next();
        proof {
            assert(done + all =~= all);
        }
        while next.is_some()
            invariant
                self.outline_error == old(self).outline_error,
                self.bbox == bbox0,
                self.n_first == if extra { old(self).n_first } else { 0 },
                self.tile_order == old(self).tile_order,
                self.spare == old(self).spare,
                self.tile == old(self).tile,
                all_fresh(self.lines@),
                forall|k: int| 0 <= k < all.len() ==> (#[trigger] all[k]).in_range(),
                match next {
                    Some(shape) => done + seq![shape] + it.remaining() == all,
                    None => done == all,
                },
                self.lines@ == start + flatten_shapes(done, self.outline_error),
            decreases it.remaining().len() + if next is Some { 1int } else { 0int },
        {
            let shape: OutlineShape = next.unwrap();
            proof {
                assert(all[done.len() as int] == shape);
                assert(shape.in_range());
                assert(done.push(shape).drop_last() =~= done);
            }
            match shape {
                OutlineShape::LineSegment(pt0, pt1) => {
                    push_line(&mut self.lines, pt0, pt1);
                },
                OutlineShape::QuadSpline(pt0, pt1, pt2) => {
                    push_quadratic(
                        &mut self.lines,
                        pt0,
                        pt1,
                        pt2,
                        self.outline_error,
                        MAX_SUBDIVISION_DEPTH,
                    );
                },
                OutlineShape::CubicSpline(pt0, pt1, pt2, pt3) => {
                    push_cubic(
                        &mut self.lines,
                        pt0,
                        pt1,
                        pt2,
                        pt3,
                        self.outline_error,
                        MAX_SUBDIVISION_DEPTH,
                    );
                },
            }
            proof {
                let more = flatten_shape(shape, self.outline_error);
                assert((start + flatten_shapes(done, self.outline_error)) + more =~= start + (
                flatten_shapes(done, self.outline_error) + more));
                done = done.push(shape);
            }
            let ghost left = it.remaining();
            next = it.next();
            proof {
                match next {
                    Some(following) => {
                        assert(left =~= seq![following] + it.remaining());
                        assert(done + seq![following] + it.remaining() =~= done + left);
                    },
                    None => {
                        assert(left =~= Seq::<OutlineShape>::empty());
                        assert(done + left =~= done);
                    },
                }
                assert(done.drop_last() + seq![shape] =~= done);
            }
        }
        let n: usize = self.lines.len();
        self.widen_from(from);
        proof {
            let added = flatten_shapes(all, self.outline_error);
            assert(self.lines@.subrange(from as int, n as int) =~= added);
            if !extra {
                assert(start + added =~= added);
            }
            lemma_widened_by_boxes(bbox0, start, added);
        }
        if !extra {
            self.n_first = n;
        }
    }

    /// Appends the segment of the line from `pt0` to `pt1`, if it has a length.
    pub fn add_line(&mut self, pt0: Vector, pt1: Vector) -> (r: bool)
        requires
            old(self).wf(),
            pt0.in_range(),
            pt1.in_range(),
        ensures
            r,
            final(self).wf(),
            final(self)@ == (RasterizerView {
                lines: old(self)@.lines + line_segments(pt0, pt1),
                bbox: widened_by_boxes(old(self)@.bbox, line_segments(pt0, pt1)),
                ..old(self)@
            }),
    {
        let from: usize = self.lines.len();
        push_line(&mut self.lines, pt0, pt1);
        proof {
            let more = line_segments(pt0, pt1);
            assert(self.lines@.subrange(0, from as int) =~= old(self).lines@);
            assert(self.lines@.subrange(from as int, self.lines@.len() as int) =~= more);
        }
        self.widen_added(Ghost(old(self).lines@), from);
        true
    }

    /// Appends the polyline that stands for a quadratic curve.
    pub fn add_quadratic(&mut self, pts: [Vector; 3]) -> (r: bool)
        requires
            old(self).wf(),
            pts[0].in_range(),
            pts[1].in_range(),
            pts[2].in_range(),
        ensures
            r,
            final(self).wf(),
            final(self)@ == (RasterizerView {
                lines: old(self)@.lines + flatten_quadratic(
                    pts[0],
                    pts[1],
                    pts[2],
                    old(self)@.outline_error,
                    MAX_SUBDIVISION_DEPTH as nat,
                ),
                bbox: widened_by_boxes(
                    old(self)@.bbox,
                    flatten_quadratic(
                        pts[0],
                        pts[1],
                        pts[2],
                        old(self)@.outline_error,
                        MAX_SUBDIVISION_DEPTH as nat,
                    ),
                ),
                ..old(self)@
            }),
    {
        let from: usize = self.lines.len();
        push_quadratic(
            &mut self.lines,
            pts[0],
            pts[1],
            pts[2],
            self.outline_error,
            MAX_SUBDIVISION_DEPTH,
        );
        proof {
            let more = flatten_quadratic(
                pts[0],
                pts[1],
                pts[2],
                self.outline_error,
                MAX_SUBDIVISION_DEPTH as nat,
            );
            assert(self.lines@.subrange(0, from as int) =~= old(self).lines@);
            assert(self.lines@.subrange(from as int, self.lines@.len() as int) =~= more);
        }
        self.widen_added(Ghost(old(self).lines@), from);
        true
    }

    /// Appends the polyline that stands for a cubic curve.
    pub fn add_cubic(&mut self, pts: [Vector; 4]) -> (r: bool)
        requires
            old(self).wf(),
            pts[0].in_range(),
            pts[1].in_range(),
            pts[2].in_range(),
            pts[3].in_range(),
        ensures
            r,
            final(self).wf(),
            final(self)@ == (RasterizerView {
                lines: old(self)@.lines + flatten_cubic(
                    pts[0],
                    pts[1],
                    pts[2],
                    pts[3],
                    old(self)@.outline_error,
                    MAX_SUBDIVISION_DEPTH as nat,
                ),
                bbox: widened_by_boxes(
                    old(self)@.bbox,
                    flatten_cubic(
                        pts[0],
                        pts[1],
                        pts[2],
                        pts[3],
                        old(self)@.outline_error,
                        MAX_SUBDIVISION_DEPTH as nat,
                    ),
                ),
                ..old(self)@
            }),
    {
        let from: usize = self.lines.len();
        push_cubic(
            &mut self.lines,
            pts[0],
            pts[1],
            pts[2],
            pts[3],
            self.outline_error,
            MAX_SUBDIVISION_DEPTH,
        );
        proof {
            let more = flatten_cubic(
                pts[0],
                pts[1],
                pts[2],
                pts[3],
                self.outline_error,
                MAX_SUBDIVISION_DEPTH as nat,
            );
            assert(self.lines@.subrange(0, from as int) =~= old(self).lines@);
            assert(self.lines@.subrange(from as int, self.lines@.len() as int) =~= more);
        }
        self.widen_added(Ghost(old(self).lines@), from);
        true
    }

    /// Fills the shape into the canvas of `width` by `height` pixels at the
    /// start of `buf`, whose upper left corner lies at pixel `(x0, y0)` of the
    /// plane of the outline. The segments are used up.
    ///
    /// Every segment is sound as flattening leaves it and stays so under
    /// every cut, so no cut can fail.
    #[verifier::rlimit(80)]
    #[verifier::spinoff_prover]
    pub fn fill<E: BitmapEngine>(
        &mut self,
        engine: &E,
        buf: &mut [u8],
        x0: i32,
        y0: i32,
        width: i32,
        height: i32,
        stride: isize,
    )
        requires
            old(self).wf(),
            engine.spec_tile_order() == old(self)@.tile_order,
            region_ok(engine, old(buf)@.len(), stride as int, 0, 0, width as int, height as int),
            -MAX_EXTENT <= x0 <= MAX_EXTENT,
            -MAX_EXTENT <= y0 <= MAX_EXTENT,
            old(self)@.lines.len() <= MAX_SEGMENTS,
        ensures
            final(self).wf(),
            final(self)@ == (RasterizerView {
                lines: Seq::empty(),
                n_first: 0,
                bbox: Rect::empty(),
                ..old(self)@
            }),
            final(buf)@.len() == old(buf)@.len(),
            final(buf)@ == with_rect(
                old(buf)@,
                stride as int,
                0,
                0,
                width as int,
                height as int,
                fill_fn(
                    engine,
                    old(self)@,
                    old(buf)@,
                    stride as int,
                    x0 as int,
                    y0 as int,
                    width as int,
                    height as int,
                ),
            ),
    {
        let x0s: i32 = x0 * 64;
        let y0s: i32 = y0 * 64;
        let size_x: i32 = width * 64;
        let size_y: i32 = height * 64;
        let mut lines: Vec<Segment> = Vec::new();
        core::mem::swap(&mut lines, &mut self.lines);
        let n_first: usize = self.n_first;
        let sides = Sides {
            right: (self.bbox.x_max as i64) - (x0s as i64) >= size_x as i64,
            bottom: (self.bbox.y_max as i64) - (y0s as i64) >= size_y as i64,
            left: (self.bbox.x_min as i64) - (x0s as i64) <= 0,
            top: (self.bbox.y_min as i64) - (y0s as i64) <= 0,
        };
        self.n_first = 0;
        self.bbox.reset();
        translate_lines(&mut lines, x0s, y0s);
        proof {
            lemma_all_fit_less(lines@, 0x1000_0000, 0x1000_0000, size_x as int, size_y as int);
        }
        let mut clipped = clip_to_canvas(lines, n_first, sides, size_x, size_y);
        let ghost stage = fill_input(old(self)@, x0 as int, y0 as int, width as int, height as int);
        proof {
            lemma2_to64();
            let all = clipped.0@;
            assert(all.subrange(all.len() - clipped.1[0] - clipped.1[1], all.len() as int) =~= all);
            assert(all.subrange(0, clipped.1[0] as int) =~= stage.line0);
            assert(all.subrange(clipped.1[0] as int, all.len() as int) =~= stage.line1);
        }
        let ghost unit: int = MAX_SEGMENTS + 1;
        let tile: &mut [u8] = box_bytes_mut(&mut self.tile);
        Self::fill_level(
            engine,
            buf,
            0,
            0,
            width,
            height,
            stride,
            &mut clipped.0,
            &mut self.spare,
            tile,
            clipped.1,
            clipped.2,
            Ghost(unit),
            Ghost(22),
            Ghost(22),
        );
        self.spare.clear();
    }
}

} // verus!
