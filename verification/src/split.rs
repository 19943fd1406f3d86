//! Cutting the segments of a rectangle in two, and telling how a rectangle
//! is to be painted from the segments that are left in it.

use vstd::prelude::*;
use crate::error::RasterError;
use crate::polyline::{COORD_LIMIT, lemma_moved_x_fits, lemma_moved_y_fits, Segment};

verus! {

/// How a rectangle is to be painted, as far as one batch of segments decides.
#[derive(Debug, Copy, Clone, PartialEq, Eq, Structural)]
pub struct FillFlags {
    /// The batch covers the rectangle fully.
    pub solid: bool,
    /// The border of the batch crosses the rectangle.
    pub complex: bool,
    /// The shape lies on the other side of the one segment of the batch.
    pub reverse: bool,
    /// More than one segment crosses the rectangle.
    pub generic: bool,
}

/// How a rectangle is to be painted that the segments `line` cross, where
/// the winding number at its upper left corner is `winding`. Without a
/// segment it is full where the winding number is not zero, and empty
/// otherwise. One segment parts it in two sides, of which the winding number
/// on the near side says which is inside, unless both are.
pub open spec fn fill_flags(line: Seq<Segment>, winding: int) -> FillFlags {
    let plain = FillFlags { solid: false, complex: false, reverse: false, generic: false };
    if line.len() == 0 {
        FillFlags { solid: winding != 0, ..plain }
    } else if line.len() > 1 {
        FillFlags { complex: true, generic: true, ..plain }
    } else {
        let l = line[0];
        let inner = if (l.flags.ul_dr && l.flags.exact_left) == l.flags.dn {
            winding + 1
        } else {
            winding
        };
        if inner == 0 {
            FillFlags { complex: true, reverse: true, ..plain }
        } else if inner == 1 {
            FillFlags { complex: true, ..plain }
        } else {
            FillFlags { solid: true, ..plain }
        }
    }
}

#[inline]
pub fn get_fill_flags(line: &[Segment], winding: i32) -> (r: FillFlags)
    requires
        winding < i32::MAX,
    ensures
        r == fill_flags(line@, winding as int),
{
    let plain = FillFlags { solid: false, complex: false, reverse: false, generic: false };
    if line.len() == 0 {
        return FillFlags { solid: winding != 0, ..plain };
    } else if line.len() > 1 {
        return FillFlags { complex: true, generic: true, ..plain };
    }
    let l: Segment = line[0];
    let mut inner: i32 = winding;
    if (l.flags.ul_dr && l.flags.exact_left) == l.flags.dn {
        inner = inner + 1;
    }
    if inner == 0 {
        FillFlags { complex: true, reverse: true, ..plain }
    } else if inner == 1 {
        FillFlags { complex: true, ..plain }
    } else {
        FillFlags { solid: true, ..plain }
    }
}

/// What becomes of one segment when a rectangle is cut in two.
pub struct StepOutcome {
    /// What the segment leaves in the first part, left of or above the cut.
    pub first: Option<Segment>,
    /// What the segment leaves in the second part, seen from the cut.
    pub second: Option<Segment>,
    /// What the segment adds to the winding number of the second part.
    pub delta: int,
    /// The cut runs through the box of the segment wherever the segment is cut.
    pub ok: bool,
}

/// The smaller of two numbers.
pub open spec fn min_of(a: i32, b: i32) -> i32 {
    if a < b {
        a
    } else {
        b
    }
}

/// What becomes of `seg` when the rectangle is cut by the vertical line at `x`.
///
/// A segment left of the cut stays in the first part as it is, or leaves
/// nothing where its box lies at the cut; one that touches the upper left
/// corner takes part in the winding number of the second part. A segment
/// right of the cut moves to the second part. Any other is cut in two.
pub open spec fn horz_step(seg: Segment, x: i32) -> StepOutcome {
    let delta: int = if seg.y_min == 0 && seg.flags.exact_top {
        if seg.a < 0 {
            1
        } else {
            -1
        }
    } else {
        0
    };
    if seg.spec_check_right(x) {
        StepOutcome {
            first: if seg.x_min >= x {
                None
            } else {
                Some(Segment { x_max: min_of(seg.x_max, x), ..seg })
            },
            second: None,
            delta,
            ok: true,
        }
    } else if seg.spec_check_left(x) {
        StepOutcome { first: None, second: Some(seg.moved_x(x)), delta: 0, ok: true }
    } else {
        StepOutcome {
            first: Some(seg.halves_horz(x).0),
            second: Some(seg.halves_horz(x).1),
            delta: if seg.flags.ul_dr {
                delta
            } else {
                0
            },
            ok: seg.x_min < x < seg.x_max,
        }
    }
}

/// What becomes of `seg` when the rectangle is cut by the horizontal line at `y`.
pub open spec fn vert_step(seg: Segment, y: i32) -> StepOutcome {
    let delta: int = if seg.x_min == 0 && seg.flags.exact_left {
        if seg.b < 0 {
            1
        } else {
            -1
        }
    } else {
        0
    };
    if seg.spec_check_bottom(y) {
        StepOutcome {
            first: if seg.y_min >= y {
                None
            } else {
                Some(Segment { y_max: min_of(seg.y_max, y), ..seg })
            },
            second: None,
            delta,
            ok: true,
        }
    } else if seg.spec_check_top(y) {
        StepOutcome { first: None, second: Some(seg.moved_y(y)), delta: 0, ok: true }
    } else {
        StepOutcome {
            first: Some(seg.halves_vert(y).0),
            second: Some(seg.halves_vert(y).1),
            delta: if seg.flags.ul_dr {
                delta
            } else {
                0
            },
            ok: seg.y_min < y < seg.y_max,
        }
    }
}

/// A rectangle is cut along `Horz`, a vertical line, or along `Vert`, a horizontal one.
pub enum Cut {
    Horz(i32),
    Vert(i32),
}

impl Cut {
    pub open spec fn step(self, seg: Segment) -> StepOutcome {
        match self {
            Cut::Horz(x) => horz_step(seg, x),
            Cut::Vert(y) => vert_step(seg, y),
        }
    }

    /// Where the cut runs.
    pub open spec fn at(self) -> i32 {
        match self {
            Cut::Horz(x) => x,
            Cut::Vert(y) => y,
        }
    }

    /// The segment leaves room for the cut.
    pub open spec fn admits(self, seg: Segment) -> bool {
        match self {
            Cut::Horz(x) => 0 <= x && seg.fits(x as int, 0),
            Cut::Vert(y) => 0 <= y && seg.fits(0, y as int),
        }
    }
}

/// What becomes of one batch of segments when a rectangle is cut in two.
pub struct GroupSplit {
    /// The segments of the first part, in the order of their sources.
    pub first: Seq<Segment>,
    /// The segments of the second part, in the order of their sources.
    pub second: Seq<Segment>,
    /// The winding number at the upper left corner of the second part.
    pub winding: int,
    /// No segment was cut outside its box.
    pub ok: bool,
}

/// The outcome of cutting the batch `src`, segment by segment, where the
/// winding number at the upper left corner of the rectangle is `winding`.
pub open spec fn split_group(src: Seq<Segment>, winding: int, cut: Cut) -> GroupSplit
    decreases src.len(),
{
    if src.len() == 0 {
        GroupSplit { first: Seq::empty(), second: Seq::empty(), winding, ok: true }
    } else {
        let before = split_group(src.drop_last(), winding, cut);
        let step = cut.step(src.last());
        GroupSplit {
            first: match step.first {
                Some(s) => before.first.push(s),
                None => before.first,
            },
            second: match step.second {
                Some(s) => before.second.push(s),
                None => before.second,
            },
            winding: before.winding + step.delta,
            ok: before.ok && step.ok,
        }
    }
}

/// Of the segments `src`, those of the first batch where it holds `n_first` of them.
pub open spec fn first_batch(src: Seq<Segment>, n_first: int) -> Seq<Segment> {
    if 0 <= n_first <= src.len() {
        src.subrange(0, n_first)
    } else {
        src
    }
}

/// Of the segments `src`, those behind the first `n_first`.
pub open spec fn second_batch(src: Seq<Segment>, n_first: int) -> Seq<Segment> {
    if 0 <= n_first <= src.len() {
        src.subrange(n_first, src.len() as int)
    } else {
        Seq::empty()
    }
}

/// A cut never makes a batch longer, nor moves the winding number by more
/// than the number of segments.
pub proof fn lemma_split_group_sizes(src: Seq<Segment>, winding: int, cut: Cut)
    ensures
        split_group(src, winding, cut).first.len() <= src.len(),
        split_group(src, winding, cut).second.len() <= src.len(),
        winding - src.len() <= split_group(src, winding, cut).winding <= winding + src.len(),
    decreases src.len(),
{
    if src.len() > 0 {
        lemma_split_group_sizes(src.drop_last(), winding, cut);
    }
}

/// Every segment of `s` leaves the given room.
pub open spec fn all_fit(s: Seq<Segment>, room_x: int, room_y: int) -> bool {
    forall|i: int| 0 <= i < s.len() ==> (#[trigger] s[i]).fits(room_x, room_y)
}

proof fn lemma_all_fit_push(s: Seq<Segment>, next: Option<Segment>, room_x: int, room_y: int)
    requires
        all_fit(s, room_x, room_y),
        next is Some ==> next->0.fits(room_x, room_y),
    ensures
        all_fit(
            match next {
                Some(seg) => s.push(seg),
                None => s,
            },
            room_x,
            room_y,
        ),
{
    match next {
        Some(seg) => {
            assert forall|i: int| 0 <= i < s.push(seg).len() implies (#[trigger] s.push(
                seg,
            )[i]).fits(room_x, room_y) by {
                if i < s.len() {
                    assert(s.push(seg)[i] == s[i]);
                }
            }
        },
        None => {},
    }
}

/// After a cut that went well, the segments of the first part leave the
/// room that their sources left, and those of the second part leave what of
/// it lies behind the cut.
pub proof fn lemma_split_group_fits(
    src: Seq<Segment>,
    winding: int,
    cut: Cut,
    room_x: int,
    room_y: int,
)
    requires
        0 <= cut.at(),
        0 <= room_x <= COORD_LIMIT,
        0 <= room_y <= COORD_LIMIT,
        cut is Horz ==> cut.at() <= room_x,
        cut is Vert ==> cut.at() <= room_y,
        all_fit(src, room_x, room_y),
        split_group(src, winding, cut).ok,
    ensures
        all_fit(split_group(src, winding, cut).first, room_x, room_y),
        all_fit(
            split_group(src, winding, cut).second,
            if cut is Horz {
                room_x - cut.at()
            } else {
                room_x
            },
            if cut is Vert {
                room_y - cut.at()
            } else {
                room_y
            },
        ),
    decreases src.len(),
{
    if src.len() > 0 {
        let seg = src.last();
        assert(seg == src[src.len() - 1]);
        assert(seg.fits(room_x, room_y));
        assert forall|i: int| 0 <= i < src.drop_last().len() implies (
        #[trigger] src.drop_last()[i]).fits(room_x, room_y) by {
            assert(src.drop_last()[i] == src[i]);
        }
        lemma_split_group_fits(src.drop_last(), winding, cut, room_x, room_y);
        let before = split_group(src.drop_last(), winding, cut);
        let step = cut.step(seg);
        match cut {
            Cut::Horz(x) => {
                lemma_moved_x_fits(seg, x, room_x, room_y);
                lemma_all_fit_push(before.first, step.first, room_x, room_y);
                lemma_all_fit_push(before.second, step.second, room_x - x, room_y);
            },
            Cut::Vert(y) => {
                lemma_moved_y_fits(seg, y, room_x, room_y);
                lemma_all_fit_push(before.first, step.first, room_x, room_y);
                lemma_all_fit_push(before.second, step.second, room_x, room_y - y);
            },
        }
    }
}

/// Cuts the segments `src[from..to]` of one batch and appends what they
/// leave to `dst0` and `dst1`. Hands back the winding number of the second part.
fn split_range(
    src: &[Segment],
    from: usize,
    to: usize,
    winding: i32,
    cut: &Cut,
    dst0: &mut Vec<Segment>,
    dst1: &mut Vec<Segment>,
) -> (r: Result<i32, RasterError>)
    requires
        from <= to <= src@.len(),
        forall|i: int| from <= i < to ==> cut.admits(#[trigger] src@[i]),
        i32::MIN <= winding - (to - from),
        winding + (to - from) <= i32::MAX,
    ensures
        ({
            let g = split_group(src@.subrange(from as int, to as int), winding as int, *cut);
            match r {
                Ok(w) => {
                    &&& g.ok
                    &&& w == g.winding
                    &&& final(dst0)@ == old(dst0)@ + g.first
                    &&& final(dst1)@ == old(dst1)@ + g.second
                },
                Err(e) => e == RasterError::InvariantViolation && !g.ok,
            }
        }),
{
    let mut w: i32 = winding;
    let mut i: usize = from;
    proof {
        assert(src@.subrange(from as int, from as int) =~= Seq::<Segment>::empty());
        assert(old(dst0)@ + Seq::<Segment>::empty() =~= old(dst0)@);
        assert(old(dst1)@ + Seq::<Segment>::empty() =~= old(dst1)@);
    }
    while i < to
        invariant
            from <= i <= to <= src@.len(),
            forall|k: int| from <= k < to ==> cut.admits(#[trigger] src@[k]),
            i32::MIN <= winding - (to - from),
            winding + (to - from) <= i32::MAX,
            ({
                let g = split_group(src@.subrange(from as int, i as int), winding as int, *cut);
                &&& g.ok
                &&& w == g.winding
                &&& dst0@ == old(dst0)@ + g.first
                &&& dst1@ == old(dst1)@ + g.second
            }),
        decreases to - i,
    {
        let seg: Segment = src[i];
        let ghost done = src@.subrange(from as int, i as int);
        let ghost next = src@.subrange(from as int, i + 1);
        let ghost g = split_group(done, winding as int, *cut);
        proof {
            assert(next.drop_last() =~= done);
            assert(next.last() == seg);
            assert(cut.admits(src@[i as int]));
            lemma_split_group_sizes(done, winding as int, *cut);
            lemma_split_group_sizes(
                src@.subrange(from as int, to as int),
                winding as int,
                *cut,
            );
        }
        match cut {
            Cut::Horz(x) => {
                let x: i32 = *x;
                let mut delta: i32 = 0;
                if seg.y_min == 0 && seg.flags.exact_top {
                    delta = if seg.a < 0 { 1 } else { -1 };
                }
                if seg.check_right(x) {
                    w = w + delta;
                    if seg.x_min < x {
                        let mut kept: Segment = seg;
                        if x < kept.x_max {
                            kept.x_max = x;
                        }
                        dst0.push(kept);
                    }
                } else if seg.check_left(x) {
                    let mut moved: Segment = seg;
                    moved.move_x(x);
                    dst1.push(moved);
                } else {
                    if !(seg.x_min < x && x < seg.x_max) {
                        proof {
                            lemma_split_group_not_ok(
                                src@.subrange(from as int, to as int),
                                winding as int,
                                *cut,
                                i - from,
                            );
                        }
                        return Err(RasterError::InvariantViolation);
                    }
                    if seg.flags.ul_dr {
                        w = w + delta;
                    }
                    let (a, b) = seg.split_horz(x);
                    dst0.push(a);
                    dst1.push(b);
                }
            },
            Cut::Vert(y) => {
                let y: i32 = *y;
                let mut delta: i32 = 0;
                if seg.x_min == 0 && seg.flags.exact_left {
                    delta = if seg.b < 0 { 1 } else { -1 };
                }
                if seg.check_bottom(y) {
                    w = w + delta;
                    if seg.y_min < y {
                        let mut kept: Segment = seg;
                        if y < kept.y_max {
                            kept.y_max = y;
                        }
                        dst0.push(kept);
                    }
                } else if seg.check_top(y) {
                    let mut moved: Segment = seg;
                    moved.move_y(y);
                    dst1.push(moved);
                } else {
                    if !(seg.y_min < y && y < seg.y_max) {
                        proof {
                            lemma_split_group_not_ok(
                                src@.subrange(from as int, to as int),
                                winding as int,
                                *cut,
                                i - from,
                            );
                        }
                        return Err(RasterError::InvariantViolation);
                    }
                    if seg.flags.ul_dr {
                        w = w + delta;
                    }
                    let (a, b) = seg.split_vert(y);
                    dst0.push(a);
                    dst1.push(b);
                }
            },
        }
        proof {
            let after = split_group(next, winding as int, *cut);
            assert(dst0@ =~= old(dst0)@ + after.first);
            assert(dst1@ =~= old(dst1)@ + after.second);
        }
        i = i + 1;
    }
    proof {
        assert(src@.subrange(from as int, i as int) == src@.subrange(from as int, to as int));
    }
    Ok(w)
}

/// A batch in which one segment is cut outside its box is not cut well.
pub proof fn lemma_split_group_not_ok(src: Seq<Segment>, winding: int, cut: Cut, at: int)
    requires
        0 <= at < src.len(),
        !cut.step(src[at]).ok,
    ensures
        !split_group(src, winding, cut).ok,
    decreases src.len(),
{
    if at < src.len() - 1 {
        assert(src.drop_last()[at] == src[at]);
        lemma_split_group_not_ok(src.drop_last(), winding, cut, at);
    }
}

/// The segments of the two parts of a rectangle that was cut in two, and
/// what goes with them.
pub struct PolylineSplit {
    /// The segments of the first part: those of the first batch, then those of the second.
    pub first: Vec<Segment>,
    /// The segments of the second part, in the same order.
    pub second: Vec<Segment>,
    /// How many segments each of the two batches has in the first part.
    pub n_first: [usize; 2],
    /// How many segments each of the two batches has in the second part.
    pub n_second: [usize; 2],
    /// The winding numbers of the two batches at the upper left corner of the second part.
    pub winding: [i32; 2],
}

/// The outcome matches what cutting the two batches of `src` gives.
pub open spec fn split_matches(
    s: PolylineSplit,
    src: Seq<Segment>,
    n_first: int,
    winding: (int, int),
    cut: Cut,
) -> bool {
    let g0 = split_group(first_batch(src, n_first), winding.0, cut);
    let g1 = split_group(second_batch(src, n_first), winding.1, cut);
    &&& s.first@ == g0.first + g1.first
    &&& s.second@ == g0.second + g1.second
    &&& s.n_first@ == seq![g0.first.len() as usize, g1.first.len() as usize]
    &&& s.n_second@ == seq![g0.second.len() as usize, g1.second.len() as usize]
    &&& s.winding@ == seq![g0.winding as i32, g1.winding as i32]
    &&& i32::MIN <= g0.winding <= i32::MAX
    &&& i32::MIN <= g1.winding <= i32::MAX
}

/// Both batches of `src` are cut well.
pub open spec fn split_ok(src: Seq<Segment>, n_first: int, winding: (int, int), cut: Cut) -> bool {
    &&& split_group(first_batch(src, n_first), winding.0, cut).ok
    &&& split_group(second_batch(src, n_first), winding.1, cut).ok
}

fn polyline_split(src: &[Segment], n_src: [usize; 2], winding: [i32; 2], cut: Cut) -> (r: Result<
    PolylineSplit,
    RasterError,
>)
    requires
        forall|i: int| 0 <= i < src@.len() ==> cut.admits(#[trigger] src@[i]),
        i32::MIN <= winding[0] - src@.len(),
        winding[0] + src@.len() <= i32::MAX,
        i32::MIN <= winding[1] - src@.len(),
        winding[1] + src@.len() <= i32::MAX,
    ensures
        r is Ok <==> split_ok(src@, n_src[0] as int, (winding[0] as int, winding[1] as int), cut),
        r is Ok ==> split_matches(
            r->Ok_0,
            src@,
            n_src[0] as int,
            (winding[0] as int, winding[1] as int),
            cut,
        ),
        r is Err ==> r->Err_0 == RasterError::InvariantViolation,
{
    let n: usize = src.len();
    let k: usize = if n_src[0] <= n { n_src[0] } else { n };
    let mut first: Vec<Segment> = Vec::new();
    let mut second: Vec<Segment> = Vec::new();
    proof {
        assert(first_batch(src@, n_src[0] as int) =~= src@.subrange(0, k as int));
        assert(second_batch(src@, n_src[0] as int) =~= src@.subrange(k as int, n as int));
    }
    let w0: i32 = match split_range(src, 0, k, winding[0], &cut, &mut first, &mut second) {
        Ok(w) => w,
        Err(e) => {
            return Err(e);
        },
    };
    let a0: usize = first.len();
    let b0: usize = second.len();
    let ghost g0 = split_group(src@.subrange(0, k as int), winding[0] as int, cut);
    proof {
        assert(first@ =~= g0.first);
        assert(second@ =~= g0.second);
    }
    let w1: i32 = match split_range(src, k, n, winding[1], &cut, &mut first, &mut second) {
        Ok(w) => w,
        Err(e) => {
            return Err(e);
        },
    };
    let a1: usize = first.len() - a0;
    let b1: usize = second.len() - b0;
    Ok(
        PolylineSplit {
            first,
            second,
            n_first: [a0, a1],
            n_second: [b0, b1],
            winding: [w0, w1],
        },
    )
}

/// Cuts the segments `src` of a rectangle by the vertical line at `x`. The
/// first `n_src[0]` of them are one batch and the rest another; `winding`
/// holds the winding numbers of the two at the upper left corner.
///
/// Fails with `InvariantViolation` where a segment would be cut outside its
/// box, which does not happen to segments that are sound.
pub fn polyline_split_horz(src: &[Segment], n_src: [usize; 2], winding: [i32; 2], x: i32) -> (r:
    Result<PolylineSplit, RasterError>)
    requires
        0 <= x,
        forall|i: int| 0 <= i < src@.len() ==> (#[trigger] src@[i]).fits(x as int, 0),
        i32::MIN <= winding[0] - src@.len(),
        winding[0] + src@.len() <= i32::MAX,
        i32::MIN <= winding[1] - src@.len(),
        winding[1] + src@.len() <= i32::MAX,
    ensures
        r is Ok <==> split_ok(
            src@,
            n_src[0] as int,
            (winding[0] as int, winding[1] as int),
            Cut::Horz(x),
        ),
        r is Ok ==> split_matches(
            r->Ok_0,
            src@,
            n_src[0] as int,
            (winding[0] as int, winding[1] as int),
            Cut::Horz(x),
        ),
        r is Err ==> r->Err_0 == RasterError::InvariantViolation,
{
    polyline_split(src, n_src, winding, Cut::Horz(x))
}

/// Cuts the segments `src` of a rectangle by the horizontal line at `y`, as
/// `polyline_split_horz` does by a vertical one.
pub fn polyline_split_vert(src: &[Segment], n_src: [usize; 2], winding: [i32; 2], y: i32) -> (r:
    Result<PolylineSplit, RasterError>)
    requires
        0 <= y,
        forall|i: int| 0 <= i < src@.len() ==> (#[trigger] src@[i]).fits(0, y as int),
        i32::MIN <= winding[0] - src@.len(),
        winding[0] + src@.len() <= i32::MAX,
        i32::MIN <= winding[1] - src@.len(),
        winding[1] + src@.len() <= i32::MAX,
    ensures
        r is Ok <==> split_ok(
            src@,
            n_src[0] as int,
            (winding[0] as int, winding[1] as int),
            Cut::Vert(y),
        ),
        r is Ok ==> split_matches(
            r->Ok_0,
            src@,
            n_src[0] as int,
            (winding[0] as int, winding[1] as int),
            Cut::Vert(y),
        ),
        r is Err ==> r->Err_0 == RasterError::InvariantViolation,
{
    polyline_split(src, n_src, winding, Cut::Vert(y))
}

} // verus!
