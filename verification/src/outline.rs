//! Outlines: points in 1/64 pixel, and the kinds of the segments that join them.

use vstd::prelude::*;
use crate::error::RasterError;

verus! {

/// A point or displacement in fixed-point space: one unit is 1/64 of a pixel.
#[derive(Debug, Copy, Clone, PartialEq, Eq, Structural)]
pub struct Vector {
    pub x: i32,
    pub y: i32,
}

impl Default for Vector {
    fn default() -> (r: Self)
        ensures
            r == (Vector { x: 0, y: 0 }),
    {
        Vector { x: 0, y: 0 }
    }
}

/// Absolute value of an integer.
pub open spec fn abs_int(v: int) -> int {
    if v < 0 { -v } else { v }
}

impl Vector {
    /// Both coordinates lie within `MAX_COORD` of zero.
    pub open spec fn in_range(self) -> bool {
        &&& -Outline::MAX_COORD <= self.x <= Outline::MAX_COORD
        &&& -Outline::MAX_COORD <= self.y <= Outline::MAX_COORD
    }

    /// Component-wise absolute value.
    pub fn abs(self) -> (r: Self)
        requires
            self.x > i32::MIN,
            self.y > i32::MIN,
        ensures
            r.x == abs_int(self.x as int),
            r.y == abs_int(self.y as int),
    {
        Vector {
            x: if self.x < 0 { -self.x } else { self.x },
            y: if self.y < 0 { -self.y } else { self.y },
        }
    }

    /// Component-wise absolute value, or `None` when one of them is not representable.
    pub fn checked_abs(self) -> (r: Option<Self>)
        ensures
            r is Some <==> self.x > i32::MIN && self.y > i32::MIN,
            r is Some ==> r->0.x == abs_int(self.x as int) && r->0.y == abs_int(self.y as int),
    {
        if self.x == i32::MIN || self.y == i32::MIN {
            None
        } else {
            Some(self.abs())
        }
    }
}

/// `v` divided by `d`, rounded towards zero.
pub open spec fn div_towards_zero(v: int, d: int) -> int {
    if (v < 0) == (d < 0) {
        abs_int(v) / abs_int(d)
    } else {
        -(abs_int(v) / abs_int(d))
    }
}

/// `v` divided by `d`, which is not zero, rounded towards zero.
fn divide(v: i32, d: i32) -> (r: i32)
    requires
        d != 0,
        v > i32::MIN,
        d > i32::MIN,
    ensures
        r == div_towards_zero(v as int, d as int),
{
    let a: i32 = if v < 0 { -v } else { v };
    let b: i32 = if d < 0 { -d } else { d };
    let q: i32 = a / b;
    proof {
        vstd::arithmetic::div_mod::lemma_fundamental_div_mod(a as int, b as int);
        vstd::arithmetic::div_mod::lemma_mod_bound(a as int, b as int);
        assert(0 <= q <= a) by (nonlinear_arith)
            requires
                a == b * q + (a as int) % (b as int),
                0 <= (a as int) % (b as int) < b,
                b >= 1,
                a >= 0,
        ;
    }
    if (v < 0) == (d < 0) {
        q
    } else {
        -q
    }
}

impl core::ops::Add for Vector {
    type Output = Vector;

    #[inline]
    fn add(self, rhs: Vector) -> (r: Vector) {
        Vector { x: self.x + rhs.x, y: self.y + rhs.y }
    }
}

impl vstd::std_specs::ops::AddSpecImpl for Vector {
    open spec fn obeys_add_spec() -> bool {
        true
    }

    open spec fn add_req(self, rhs: Vector) -> bool {
        &&& i32::MIN <= self.x + rhs.x <= i32::MAX
        &&& i32::MIN <= self.y + rhs.y <= i32::MAX
    }

    open spec fn add_spec(self, rhs: Vector) -> Vector {
        Vector { x: (self.x + rhs.x) as i32, y: (self.y + rhs.y) as i32 }
    }
}

impl core::ops::Add<i32> for Vector {
    type Output = Vector;

    #[inline]
    fn add(self, rhs: i32) -> (r: Vector) {
        Vector { x: self.x + rhs, y: self.y + rhs }
    }
}

impl vstd::std_specs::ops::AddSpecImpl<i32> for Vector {
    open spec fn obeys_add_spec() -> bool {
        true
    }

    open spec fn add_req(self, rhs: i32) -> bool {
        &&& i32::MIN <= self.x + rhs <= i32::MAX
        &&& i32::MIN <= self.y + rhs <= i32::MAX
    }

    open spec fn add_spec(self, rhs: i32) -> Vector {
        Vector { x: (self.x + rhs) as i32, y: (self.y + rhs) as i32 }
    }
}

impl core::ops::Sub for Vector {
    type Output = Vector;

    #[inline]
    fn sub(self, rhs: Vector) -> (r: Vector) {
        Vector { x: self.x - rhs.x, y: self.y - rhs.y }
    }
}

impl vstd::std_specs::ops::SubSpecImpl for Vector {
    open spec fn obeys_sub_spec() -> bool {
        true
    }

    open spec fn sub_req(self, rhs: Vector) -> bool {
        &&& i32::MIN <= self.x - rhs.x <= i32::MAX
        &&& i32::MIN <= self.y - rhs.y <= i32::MAX
    }

    open spec fn sub_spec(self, rhs: Vector) -> Vector {
        Vector { x: (self.x - rhs.x) as i32, y: (self.y - rhs.y) as i32 }
    }
}

impl core::ops::Sub<i32> for Vector {
    type Output = Vector;

    #[inline]
    fn sub(self, rhs: i32) -> (r: Vector) {
        Vector { x: self.x - rhs, y: self.y - rhs }
    }
}

impl vstd::std_specs::ops::SubSpecImpl<i32> for Vector {
    open spec fn obeys_sub_spec() -> bool {
        true
    }

    open spec fn sub_req(self, rhs: i32) -> bool {
        &&& i32::MIN <= self.x - rhs <= i32::MAX
        &&& i32::MIN <= self.y - rhs <= i32::MAX
    }

    open spec fn sub_spec(self, rhs: i32) -> Vector {
        Vector { x: (self.x - rhs) as i32, y: (self.y - rhs) as i32 }
    }
}

impl core::ops::Div<i32> for Vector {
    type Output = Vector;

    #[inline]
    fn div(self, rhs: i32) -> (r: Vector) {
        Vector { x: divide(self.x, rhs), y: divide(self.y, rhs) }
    }
}

impl vstd::std_specs::ops::DivSpecImpl<i32> for Vector {
    open spec fn obeys_div_spec() -> bool {
        true
    }

    open spec fn div_req(self, rhs: i32) -> bool {
        &&& rhs != 0
        &&& rhs > i32::MIN
        &&& self.x > i32::MIN
        &&& self.y > i32::MIN
    }

    open spec fn div_spec(self, rhs: i32) -> Vector {
        Vector {
            x: div_towards_zero(self.x as int, rhs as int) as i32,
            y: div_towards_zero(self.y as int, rhs as int) as i32,
        }
    }
}

impl core::ops::Shr<i32> for Vector {
    type Output = Vector;

    #[inline]
    fn shr(self, rhs: i32) -> (r: Vector) {
        Vector { x: self.x >> rhs, y: self.y >> rhs }
    }
}

impl vstd::std_specs::ops::ShrSpecImpl<i32> for Vector {
    open spec fn obeys_shr_spec() -> bool {
        true
    }

    open spec fn shr_req(self, rhs: i32) -> bool {
        0 <= rhs < 32
    }

    open spec fn shr_spec(self, rhs: i32) -> Vector {
        Vector { x: self.x >> rhs, y: self.y >> rhs }
    }
}

/// An axis-aligned bounding box that only ever grows.
#[derive(Debug, Copy, Clone, PartialEq, Eq, Structural)]
pub struct Rect {
    pub x_min: i32,
    pub y_min: i32,
    pub x_max: i32,
    pub y_max: i32,
}

impl Default for Rect {
    fn default() -> (r: Self)
        ensures
            r == (Rect { x_min: 0, y_min: 0, x_max: 0, y_max: 0 }),
    {
        Rect { x_min: 0, y_min: 0, x_max: 0, y_max: 0 }
    }
}

pub open spec fn min_i32(a: i32, b: i32) -> i32 {
    if a <= b { a } else { b }
}

pub open spec fn max_i32(a: i32, b: i32) -> i32 {
    if a >= b { a } else { b }
}

impl Rect {
    /// The empty box: every later `update` replaces all four bounds.
    pub open spec fn empty() -> Rect {
        Rect { x_min: i32::MAX, y_min: i32::MAX, x_max: i32::MIN, y_max: i32::MIN }
    }

    /// The smallest box that holds both `self` and the given bounds.
    pub open spec fn widened(self, x_min: i32, y_min: i32, x_max: i32, y_max: i32) -> Rect {
        Rect {
            x_min: min_i32(self.x_min, x_min),
            y_min: min_i32(self.y_min, y_min),
            x_max: max_i32(self.x_max, x_max),
            y_max: max_i32(self.y_max, y_max),
        }
    }

    /// The box widened by every point of `pts`, in order.
    pub open spec fn widened_by_points(self, pts: Seq<Vector>) -> Rect
        decreases pts.len(),
    {
        if pts.len() == 0 {
            self
        } else {
            let p = pts.last();
            self.widened_by_points(pts.drop_last()).widened(p.x, p.y, p.x, p.y)
        }
    }

    /// `self` lies inside `other`.
    pub open spec fn within(self, other: Rect) -> bool {
        &&& other.x_min <= self.x_min
        &&& other.y_min <= self.y_min
        &&& self.x_max <= other.x_max
        &&& self.y_max <= other.y_max
    }

    /// Makes the box empty.
    pub fn reset(&mut self)
        ensures
            *final(self) == Rect::empty(),
    {
        self.x_min = i32::MAX;
        self.y_min = i32::MAX;
        self.x_max = i32::MIN;
        self.y_max = i32::MIN;
    }

    /// Widens the box so that it holds the given bounds too.
    pub fn update(&mut self, x_min: i32, y_min: i32, x_max: i32, y_max: i32)
        ensures
            *final(self) == old(self).widened(x_min, y_min, x_max, y_max),
    {
        if x_min < self.x_min {
            self.x_min = x_min;
        }
        if y_min < self.y_min {
            self.y_min = y_min;
        }
        if x_max > self.x_max {
            self.x_max = x_max;
        }
        if y_max > self.y_max {
            self.y_max = y_max;
        }
    }
}

/// What kind of curve a segment of an outline is.
#[derive(Debug, Copy, Clone, PartialEq, Eq, Structural)]
pub enum SegmentType {
    LineSegment,
    QuadSpline,
    CubicSpline,
}

impl SegmentType {
    /// How many new points one segment of this kind takes. Its first control
    /// point is none of them: a segment starts where the one before it ended.
    pub open spec fn new_points(self) -> nat {
        match self {
            SegmentType::LineSegment => 1,
            SegmentType::QuadSpline => 2,
            SegmentType::CubicSpline => 3,
        }
    }
}

/// One segment of an outline with all its control points.
#[derive(Debug, Copy, Clone, PartialEq, Eq, Structural)]
pub enum Segment {
    LineSegment(Vector, Vector),
    QuadSpline(Vector, Vector, Vector),
    CubicSpline(Vector, Vector, Vector, Vector),
}

impl Segment {
    /// Every control point of the segment is in range.
    pub open spec fn in_range(self) -> bool {
        match self {
            Segment::LineSegment(p0, p1) => p0.in_range() && p1.in_range(),
            Segment::QuadSpline(p0, p1, p2) => p0.in_range() && p1.in_range() && p2.in_range(),
            Segment::CubicSpline(p0, p1, p2, p3) => p0.in_range() && p1.in_range()
                && p2.in_range() && p3.in_range(),
        }
    }

    /// The point at which the segment starts.
    pub open spec fn first(self) -> Vector {
        match self {
            Segment::LineSegment(p0, _) => p0,
            Segment::QuadSpline(p0, _, _) => p0,
            Segment::CubicSpline(p0, _, _, _) => p0,
        }
    }

    /// The point at which the segment ends.
    pub open spec fn last(self) -> Vector {
        match self {
            Segment::LineSegment(_, p1) => p1,
            Segment::QuadSpline(_, _, p2) => p2,
            Segment::CubicSpline(_, _, _, p3) => p3,
        }
    }
}

/// The segment of kind `tag` that starts at `pen` and takes its new points
/// from `points[at]` on.
pub open spec fn segment_at(points: Seq<Vector>, pen: Vector, at: int, tag: SegmentType) -> Segment {
    match tag {
        SegmentType::LineSegment => Segment::LineSegment(pen, points[at]),
        SegmentType::QuadSpline => Segment::QuadSpline(pen, points[at], points[at + 1]),
        SegmentType::CubicSpline => Segment::CubicSpline(
            pen,
            points[at],
            points[at + 1],
            points[at + 2],
        ),
    }
}

/// Whether the point at `at` begins a contour.
pub open spec fn begins_contour(points: Seq<Vector>, starts: Seq<bool>, at: int) -> bool {
    0 <= at < points.len() && at < starts.len() && starts[at]
}

/// Whether the tag at `tag_pos` finds the new points it takes from `point_pos` on.
pub open spec fn tag_fits(points: Seq<Vector>, tags: Seq<SegmentType>, point_pos: int, tag_pos: int) -> bool {
    0 <= tag_pos < tags.len() && 0 <= point_pos && point_pos + tags[tag_pos].new_points()
        <= points.len()
}

/// The segments that are read from `point_pos` and `tag_pos` on, with the
/// pen at `pen`. A point that begins a contour takes the pen to itself and
/// gives no segment. Otherwise the next tag takes its new points, its
/// segment runs from the pen over them, and the pen is left at the last of
/// them. Reading ends where a tag is missing or finds too few points.
pub open spec fn segments_from(
    points: Seq<Vector>,
    tags: Seq<SegmentType>,
    starts: Seq<bool>,
    point_pos: int,
    tag_pos: int,
    pen: Vector,
) -> Seq<Segment>
    decreases points.len() - point_pos,
{
    if begins_contour(points, starts, point_pos) {
        segments_from(points, tags, starts, point_pos + 1, tag_pos, points[point_pos])
    } else if tag_fits(points, tags, point_pos, tag_pos) {
        let next = point_pos + tags[tag_pos].new_points();
        seq![segment_at(points, pen, point_pos, tags[tag_pos])] + segments_from(
            points,
            tags,
            starts,
            next,
            tag_pos + 1,
            points[next - 1],
        )
    } else {
        Seq::empty()
    }
}

/// Where reading stands: before a point, before a tag, with the pen at a point.
pub struct ReadState {
    pub point_pos: int,
    pub tag_pos: int,
    pub pen: Vector,
}

/// Where the reading of `segments_from` ends.
pub open spec fn read_end(
    points: Seq<Vector>,
    tags: Seq<SegmentType>,
    starts: Seq<bool>,
    point_pos: int,
    tag_pos: int,
    pen: Vector,
) -> ReadState
    decreases points.len() - point_pos,
{
    if begins_contour(points, starts, point_pos) {
        read_end(points, tags, starts, point_pos + 1, tag_pos, points[point_pos])
    } else if tag_fits(points, tags, point_pos, tag_pos) {
        let next = point_pos + tags[tag_pos].new_points();
        read_end(points, tags, starts, next, tag_pos + 1, points[next - 1])
    } else {
        ReadState { point_pos, tag_pos, pen }
    }
}

/// The segments over points in range, read with a pen in range, have their
/// control points in range.
pub proof fn lemma_segments_in_range(
    points: Seq<Vector>,
    tags: Seq<SegmentType>,
    starts: Seq<bool>,
    point_pos: int,
    tag_pos: int,
    pen: Vector,
)
    requires
        forall|i: int| 0 <= i < points.len() ==> (#[trigger] points[i]).in_range(),
        pen.in_range(),
    ensures
        forall|k: int|
            0 <= k < segments_from(points, tags, starts, point_pos, tag_pos, pen).len() ==> (
            #[trigger] segments_from(points, tags, starts, point_pos, tag_pos, pen)[k]).in_range(),
    decreases points.len() - point_pos,
{
    if begins_contour(points, starts, point_pos) {
        lemma_segments_in_range(points, tags, starts, point_pos + 1, tag_pos, points[point_pos]);
        assert(segments_from(points, tags, starts, point_pos, tag_pos, pen) == segments_from(
            points,
            tags,
            starts,
            point_pos + 1,
            tag_pos,
            points[point_pos],
        ));
    } else if tag_fits(points, tags, point_pos, tag_pos) {
        let next = point_pos + tags[tag_pos].new_points();
        lemma_segments_in_range(points, tags, starts, next, tag_pos + 1, points[next - 1]);
        let head = segment_at(points, pen, point_pos, tags[tag_pos]);
        let rest = segments_from(points, tags, starts, next, tag_pos + 1, points[next - 1]);
        assert(points[point_pos].in_range());
        assert(points[next - 1].in_range());
        assert(next - point_pos == 3 ==> points[point_pos + 1].in_range());
        assert(head.in_range());
        assert forall|k: int| 0 <= k < (seq![head] + rest).len() implies (#[trigger] (seq![head]
            + rest)[k]).in_range() by {
            if k > 0 {
                assert((seq![head] + rest)[k] == rest[k - 1]);
            }
        }
        assert(segments_from(points, tags, starts, point_pos, tag_pos, pen) == seq![head] + rest);
    } else {
        assert(segments_from(points, tags, starts, point_pos, tag_pos, pen).len() == 0);
    }
}

/// Reading goes on where it ended. Where the reading of one outline ends
/// with every point and every tag read, the segments of an outline that
/// continues it are those of the first, followed by what is read from there
/// on; and the pen was left at the last point.
pub proof fn lemma_read_on(
    points: Seq<Vector>,
    tags: Seq<SegmentType>,
    starts: Seq<bool>,
    more_points: Seq<Vector>,
    more_tags: Seq<SegmentType>,
    more_starts: Seq<bool>,
    point_pos: int,
    tag_pos: int,
    pen: Vector,
)
    requires
        starts.len() == points.len(),
        0 <= point_pos <= points.len(),
        0 <= tag_pos <= tags.len(),
        point_pos > 0 ==> pen == points[point_pos - 1],
        read_end(points, tags, starts, point_pos, tag_pos, pen).point_pos == points.len(),
        read_end(points, tags, starts, point_pos, tag_pos, pen).tag_pos == tags.len(),
    ensures
        points.len() > 0 ==> read_end(points, tags, starts, point_pos, tag_pos, pen).pen
            == points.last(),
        segments_from(
            points + more_points,
            tags + more_tags,
            starts + more_starts,
            point_pos,
            tag_pos,
            pen,
        ) == segments_from(points, tags, starts, point_pos, tag_pos, pen) + segments_from(
            points + more_points,
            tags + more_tags,
            starts + more_starts,
            points.len() as int,
            tags.len() as int,
            read_end(points, tags, starts, point_pos, tag_pos, pen).pen,
        ),
        read_end(
            points + more_points,
            tags + more_tags,
            starts + more_starts,
            point_pos,
            tag_pos,
            pen,
        ) == read_end(
            points + more_points,
            tags + more_tags,
            starts + more_starts,
            points.len() as int,
            tags.len() as int,
            read_end(points, tags, starts, point_pos, tag_pos, pen).pen,
        ),
    decreases points.len() - point_pos,
{
    let p = points + more_points;
    let t = tags + more_tags;
    let s = starts + more_starts;
    if begins_contour(points, starts, point_pos) {
        assert(begins_contour(p, s, point_pos));
        assert(p[point_pos] == points[point_pos]);
        lemma_read_on(
            points,
            tags,
            starts,
            more_points,
            more_tags,
            more_starts,
            point_pos + 1,
            tag_pos,
            points[point_pos],
        );
    } else if tag_fits(points, tags, point_pos, tag_pos) {
        let next = point_pos + tags[tag_pos].new_points();
        assert(!begins_contour(p, s, point_pos));
        assert(t[tag_pos] == tags[tag_pos]);
        assert(tag_fits(p, t, point_pos, tag_pos));
        assert(p[point_pos] == points[point_pos]);
        assert(p[next - 1] == points[next - 1]);
        assert(p[point_pos + 1] == points[point_pos + 1] || next - point_pos < 2);
        assert(segment_at(p, pen, point_pos, t[tag_pos]) == segment_at(
            points,
            pen,
            point_pos,
            tags[tag_pos],
        ));
        lemma_read_on(
            points,
            tags,
            starts,
            more_points,
            more_tags,
            more_starts,
            next,
            tag_pos + 1,
            points[next - 1],
        );
        let head = seq![segment_at(points, pen, point_pos, tags[tag_pos])];
        let rest = segments_from(points, tags, starts, next, tag_pos + 1, points[next - 1]);
        let tail = segments_from(
            p,
            t,
            s,
            points.len() as int,
            tags.len() as int,
            read_end(points, tags, starts, point_pos, tag_pos, pen).pen,
        );
        assert(head + (rest + tail) =~= (head + rest) + tail);
    } else {
        assert(point_pos == points.len() && tag_pos == tags.len());
        assert(segments_from(points, tags, starts, point_pos, tag_pos, pen) =~= Seq::<
            Segment,
        >::empty());
        assert(Seq::<Segment>::empty() + segments_from(p, t, s, point_pos, tag_pos, pen)
            =~= segments_from(p, t, s, point_pos, tag_pos, pen));
    }
}

/// What an outline holds, as plain sequences.
pub struct OutlineView {
    /// The points, in the order in which they were added.
    pub points: Seq<Vector>,
    /// The segment kinds, in the order in which they were added.
    pub tags: Seq<SegmentType>,
    /// For each point, whether a contour begins at it.
    pub starts: Seq<bool>,
    /// Index of the first point of the contour that is still open, if one is.
    pub open_start: Option<usize>,
}

impl OutlineView {
    /// The outline without points or segments.
    pub open spec fn empty() -> OutlineView {
        OutlineView {
            points: Seq::empty(),
            tags: Seq::empty(),
            starts: Seq::empty(),
            open_start: None,
        }
    }

    /// The outline after `pt` was added, with the kind of its segment if one
    /// is given. While no contour is open the point begins one.
    pub open spec fn with_point(self, pt: Vector, segment: Option<SegmentType>) -> OutlineView {
        OutlineView {
            points: self.points.push(pt),
            tags: match segment {
                Some(s) => self.tags.push(s),
                None => self.tags,
            },
            starts: self.starts.push(self.open_start is None),
            open_start: match self.open_start {
                Some(i) => Some(i),
                None => Some(self.points.len() as usize),
            },
        }
    }

    /// The outline after the open contour, if there is one, was closed: a
    /// line takes one new point, which is the point the contour began at.
    pub open spec fn closed(self) -> OutlineView {
        match self.open_start {
            Some(i) => OutlineView {
                points: self.points.push(self.points[i as int]),
                tags: self.tags.push(SegmentType::LineSegment),
                starts: self.starts.push(false),
                open_start: None,
            },
            None => self,
        }
    }

    /// The segments of the outline with their control points.
    pub open spec fn segments(self) -> Seq<Segment> {
        segments_from(self.points, self.tags, self.starts, 0, 0, Vector { x: 0, y: 0 })
    }

    /// Every point is marked, and the open contour begins at a point that is
    /// marked as the beginning of one.
    pub open spec fn marked(self) -> bool {
        &&& self.starts.len() == self.points.len()
        &&& self.open_start is Some ==> self.open_start->0 < self.points.len()
            && self.starts[self.open_start->0 as int]
    }

    /// Points and tags are in step: the segments use up every point and every tag.
    pub open spec fn settled(self) -> bool {
        let end = read_end(self.points, self.tags, self.starts, 0, 0, Vector { x: 0, y: 0 });
        end.point_pos == self.points.len() && end.tag_pos == self.tags.len()
    }
}

/// A path: a list of points and a list of segment kinds that are read together,
/// the points at which its contours begin, and the place where the contour
/// that is still open began.
#[derive(Debug, Clone)]
pub struct Outline {
    points: Vec<Vector>,
    segments: Vec<SegmentType>,
    contour_starts: Vec<bool>,
    start_of_final_contour: Option<usize>,
}

impl View for Outline {
    type V = OutlineView;

    closed spec fn view(&self) -> OutlineView {
        OutlineView {
            points: self.points@,
            tags: self.segments@,
            starts: self.contour_starts@,
            open_start: self.start_of_final_contour,
        }
    }
}

impl Default for Outline {
    fn default() -> (r: Self)
        ensures
            r.wf(),
            r@ == OutlineView::empty(),
    {
        Outline {
            points: Vec::new(),
            segments: Vec::new(),
            contour_starts: Vec::new(),
            start_of_final_contour: None,
        }
    }
}

impl Outline {
    /// Largest magnitude a coordinate of a point may have, in 1/64 pixel units.
    pub const MAX_COORD: i32 = 0x0fff_ffff;

    /// Every point is in range and marked, and the open contour begins at a
    /// point that exists. Every outline that this module hands out is well formed.
    pub closed spec fn wf(&self) -> bool {
        &&& forall|i: int| 0 <= i < self.points@.len() ==> (#[trigger] self.points@[i]).in_range()
        &&& self@.marked()
    }

    /// What `wf` says of the view.
    pub proof fn lemma_wf(&self)
        requires
            self.wf(),
        ensures
            self@.marked(),
            forall|i: int| 0 <= i < self@.points.len() ==> (#[trigger] self@.points[i]).in_range(),
    {
    }

    /// The points of the outline. Each of them is in range.
    pub fn points(&self) -> (r: &[Vector])
        requires
            self.wf(),
        ensures
            r@ == self@.points,
            forall|i: int| 0 <= i < r@.len() ==> (#[trigger] r@[i]).in_range(),
    {
        self.points.as_slice()
    }

    /// The control points of every segment of a well formed outline are in range.
    pub proof fn lemma_segments_in_range(&self)
        requires
            self.wf(),
        ensures
            forall|k: int|
                0 <= k < self@.segments().len() ==> (#[trigger] self@.segments()[k]).in_range(),
    {
        lemma_segments_in_range(
            self.points@,
            self.segments@,
            self.contour_starts@,
            0,
            0,
            Vector { x: 0, y: 0 },
        );
    }

    /// A cursor that stands before the first segment.
    pub fn segments(&self) -> (r: Segments<'_>)
        ensures
            r.remaining() == self@.segments(),
    {
        Segments {
            points: self.points.as_slice(),
            segments: self.segments.as_slice(),
            starts: self.contour_starts.as_slice(),
            point_pos: 0,
            segment_pos: 0,
            pen: Vector { x: 0, y: 0 },
        }
    }

    /// An empty outline with room for the given numbers of points and segments.
    pub fn new(n_points: usize, n_segments: usize) -> (r: Self)
        ensures
            r.wf(),
            r@ == OutlineView::empty(),
    {
        Outline {
            points: Vec::with_capacity(n_points),
            segments: Vec::with_capacity(n_segments),
            contour_starts: Vec::with_capacity(n_points),
            start_of_final_contour: None,
        }
    }

    /// Appends a point, and the kind of the segment it belongs to if one is given.
    /// The first point added while no contour is open opens one.
    /// A point out of range is refused and nothing changes.
    /// Where points and tags were in step, a point that opens a contour adds
    /// no segment, and a point with the tag of a line adds the line from the
    /// last point to it.
    pub fn add_point(&mut self, pt: Vector, segment: Option<SegmentType>) -> (r: Result<
        (),
        RasterError,
    >)
        requires
            old(self).wf(),
        ensures
            final(self).wf(),
            pt.in_range() ==> r is Ok && final(self)@ == old(self)@.with_point(pt, segment),
            !pt.in_range() ==> r == Err::<(), RasterError>(RasterError::CoordinateOverflow)
                && final(self)@ == old(self)@,
            pt.in_range() && old(self)@.settled() && old(self)@.open_start is None && segment
                is None ==> final(self)@.settled() && final(self)@.segments()
                == old(self)@.segments(),
            pt.in_range() && old(self)@.settled() && old(self)@.open_start is Some && segment
                == Some(SegmentType::LineSegment) ==> final(self)@.settled()
                && final(self)@.segments() == old(self)@.segments().push(
                Segment::LineSegment(old(self)@.points.last(), pt),
            ),
    {
        if pt.x > Self::MAX_COORD || pt.x < -Self::MAX_COORD || pt.y > Self::MAX_COORD || pt.y
            < -Self::MAX_COORD {
            return Err(RasterError::CoordinateOverflow);
        }
        proof {
            let o = self@;
            if o.settled() && o.open_start is None && segment is None {
                lemma_contour_begun(o, pt);
            }
            if o.settled() && o.open_start is Some && segment == Some(SegmentType::LineSegment) {
                lemma_segment_added(o, seq![pt], SegmentType::LineSegment);
                let w = o.with_segment(seq![pt], SegmentType::LineSegment);
                assert(w.points =~= o.with_point(pt, segment).points);
                assert(w.starts =~= o.with_point(pt, segment).starts);
            }
        }
        self.points.push(pt);
        if let Some(s) = segment {
            self.segments.push(s);
        }
        if self.start_of_final_contour.is_none() {
            self.start_of_final_contour = Some(self.points.len() - 1);
            self.contour_starts.push(true);
        } else {
            self.contour_starts.push(false);
        }
        Ok(())
    }

    /// Appends a segment kind alone, for points that are added on their own.
    pub fn add_segment(&mut self, segment: SegmentType)
        requires
            old(self).wf(),
        ensures
            final(self).wf(),
            final(self)@ == (OutlineView { tags: old(self)@.tags.push(segment), ..old(self)@ }),
    {
        self.segments.push(segment);
    }

    /// Closes the open contour with a line from the last point back to the
    /// point the contour began at. Without an open contour nothing changes.
    /// Where points and tags were in step, the segments are those of before
    /// and that line.
    pub fn close_contour(&mut self)
        requires
            old(self).wf(),
        ensures
            final(self).wf(),
            final(self)@ == old(self)@.closed(),
            final(self)@.open_start is None,
            old(self)@.open_start is None ==> final(self)@ == old(self)@,
            old(self)@.open_start is Some && old(self)@.settled() ==> final(self)@.settled()
                && final(self)@.segments() == old(self)@.segments().push(
                Segment::LineSegment(
                    old(self)@.points.last(),
                    old(self)@.points[old(self)@.open_start->0 as int],
                ),
            ),
    {
        let start: usize = match self.start_of_final_contour {
            Some(i) => i,
            None => {
                return ;
            },
        };
        proof {
            if self@.settled() {
                lemma_closed_segments(self@);
            }
        }
        let p1: Vector = self.points[start];
        self.start_of_final_contour = None;
        self.segments.push(SegmentType::LineSegment);
        self.points.push(p1);
        self.contour_starts.push(false);
    }

    /// Widens `cbox` by every point of the outline.
    pub fn update_cbox(&self, cbox: &mut Rect)
        ensures
            *final(cbox) == old(cbox).widened_by_points(self@.points),
    {
        let n: usize = self.points.len();
        let mut i: usize = 0;
        while i < n
            invariant
                n == self.points@.len(),
                0 <= i <= n,
                *cbox == old(cbox).widened_by_points(self.points@.subrange(0, i as int)),
            decreases n - i,
        {
            let p: Vector = self.points[i];
            proof {
                let next = self.points@.subrange(0, i + 1);
                assert(next.drop_last() == self.points@.subrange(0, i as int));
                assert(next.last() == p);
            }
            cbox.update(p.x, p.y, p.x, p.y);
            i += 1;
        }
        proof {
            assert(self.points@.subrange(0, n as int) == self.points@);
        }
    }
}

/// Closing twice in a row is closing once: after the first time no contour is open.
pub proof fn lemma_close_contour_idempotent(o: OutlineView)
    ensures
        o.closed().open_start is None,
        o.closed().closed() == o.closed(),
        o.open_start is None ==> o.closed() == o,
{
}

/// Closing an open contour whose points and tags are in step adds one
/// segment, the line from the last point to the point the contour began at,
/// and leaves points and tags in step.
pub proof fn lemma_closed_segments(o: OutlineView)
    requires
        o.marked(),
        o.open_start is Some,
        o.settled(),
    ensures
        o.closed().marked(),
        o.closed().settled(),
        o.closed().segments() == o.segments().push(
            Segment::LineSegment(o.points.last(), o.points[o.open_start->0 as int]),
        ),
{
    let start = o.points[o.open_start->0 as int];
    lemma_segment_added(o, seq![start], SegmentType::LineSegment);
    let c = o.with_segment(seq![start], SegmentType::LineSegment);
    assert(c.points =~= o.closed().points);
    assert(c.starts =~= o.closed().starts);
}

impl OutlineView {
    /// The outline after a segment of kind `tag` was added to the open
    /// contour: its new points, none of which begins a contour, and its tag.
    pub open spec fn with_segment(self, new_points: Seq<Vector>, tag: SegmentType) -> OutlineView {
        OutlineView {
            points: self.points + new_points,
            tags: self.tags.push(tag),
            starts: self.starts + Seq::new(new_points.len(), |i: int| false),
            ..self
        }
    }
}

/// A segment that is added to an outline whose points and tags are in step
/// starts at the last point: the segments are those of before, followed by
/// the segment of the given kind from the last point over the new points.
/// Points and tags are in step again.
pub proof fn lemma_segment_added(o: OutlineView, new_points: Seq<Vector>, tag: SegmentType)
    requires
        o.marked(),
        o.settled(),
        new_points.len() == tag.new_points(),
    ensures
        o.with_segment(new_points, tag).settled(),
        o.with_segment(new_points, tag).segments() == o.segments().push(
            segment_at(
                new_points,
                if o.points.len() > 0 {
                    o.points.last()
                } else {
                    Vector { x: 0, y: 0 }
                },
                0,
                tag,
            ),
        ),
{
    let zero = Vector { x: 0, y: 0 };
    let none = Seq::new(new_points.len(), |i: int| false);
    let w = o.with_segment(new_points, tag);
    lemma_read_on(o.points, o.tags, o.starts, new_points, seq![tag], none, 0, 0, zero);
    assert(o.tags + seq![tag] =~= w.tags);
    let n = o.points.len() as int;
    let m = o.tags.len() as int;
    let end = read_end(o.points, o.tags, o.starts, 0, 0, zero);
    let pen = if n > 0 {
        o.points.last()
    } else {
        zero
    };
    assert(end.pen == pen) by {
        if n == 0 {
            assert(!begins_contour(o.points, o.starts, 0));
            assert(!tag_fits(o.points, o.tags, 0, 0));
        }
    }
    assert(!begins_contour(w.points, w.starts, n));
    assert(tag_fits(w.points, w.tags, n, m));
    let next = n + tag.new_points();
    assert(!begins_contour(w.points, w.starts, next));
    assert(!tag_fits(w.points, w.tags, next, m + 1));
    assert(segments_from(w.points, w.tags, w.starts, next, m + 1, w.points[next - 1]) =~= Seq::<
        Segment,
    >::empty());
    assert(w.points[n] == new_points[0]);
    assert(tag.new_points() >= 2 ==> w.points[n + 1] == new_points[1]);
    assert(tag.new_points() >= 3 ==> w.points[n + 2] == new_points[2]);
    assert(segment_at(w.points, pen, n, tag) == segment_at(new_points, pen, 0, tag));
    assert(segments_from(w.points, w.tags, w.starts, n, m, pen) =~= seq![
        segment_at(new_points, pen, 0, tag),
    ]);
    assert(read_end(w.points, w.tags, w.starts, next, m + 1, w.points[next - 1]) == (ReadState {
        point_pos: next,
        tag_pos: m + 1,
        pen: w.points[next - 1],
    }));
    assert(read_end(w.points, w.tags, w.starts, n, m, pen).point_pos == next);
    assert(o.segments() + seq![segment_at(new_points, pen, 0, tag)] =~= o.segments().push(
        segment_at(new_points, pen, 0, tag),
    ));
}

/// A point that begins a contour adds no segment: where points and tags
/// were in step they stay so, and the segments are those of before.
pub proof fn lemma_contour_begun(o: OutlineView, pt: Vector)
    requires
        o.marked(),
        o.settled(),
        o.open_start is None,
    ensures
        o.with_point(pt, None).settled(),
        o.with_point(pt, None).segments() == o.segments(),
{
    let zero = Vector { x: 0, y: 0 };
    let w = o.with_point(pt, None);
    lemma_read_on(o.points, o.tags, o.starts, seq![pt], Seq::empty(), seq![true], 0, 0, zero);
    assert(o.points + seq![pt] =~= w.points);
    assert(o.tags + Seq::<SegmentType>::empty() =~= w.tags);
    assert(o.starts + seq![true] =~= w.starts);
    let n = o.points.len() as int;
    let m = o.tags.len() as int;
    let end = read_end(o.points, o.tags, o.starts, 0, 0, zero);
    assert(begins_contour(w.points, w.starts, n));
    assert(!begins_contour(w.points, w.starts, n + 1));
    assert(!tag_fits(w.points, w.tags, n + 1, m));
    assert(segments_from(w.points, w.tags, w.starts, n + 1, m, pt) =~= Seq::<Segment>::empty());
    assert(segments_from(w.points, w.tags, w.starts, n, m, end.pen) =~= Seq::<Segment>::empty());
    assert(read_end(w.points, w.tags, w.starts, n + 1, m, pt) == (ReadState {
        point_pos: n + 1,
        tag_pos: m,
        pen: pt,
    }));
    assert(read_end(w.points, w.tags, w.starts, n, m, end.pen).point_pos == n + 1);
    assert(o.segments() + Seq::<Segment>::empty() =~= o.segments());
}

/// Whether `v` is a point at or behind `from` at which a contour begins.
pub open spec fn contour_begins_at(points: Seq<Vector>, starts: Seq<bool>, from: int, v: Vector) -> bool {
    exists|i: int| from <= i && #[trigger] begins_contour(points, starts, i) && points[i] == v
}

/// Each segment starts where the one before it ended, the first of them at
/// the pen, unless it starts at a point at which a contour begins.
pub proof fn lemma_segments_chained(
    points: Seq<Vector>,
    tags: Seq<SegmentType>,
    starts: Seq<bool>,
    point_pos: int,
    tag_pos: int,
    pen: Vector,
)
    ensures
        ({
            let segs = segments_from(points, tags, starts, point_pos, tag_pos, pen);
            forall|k: int|
                0 <= k < segs.len() ==> {
                    ||| (#[trigger] segs[k]).first() == (if k == 0 {
                        pen
                    } else {
                        segs[k - 1].last()
                    })
                    ||| contour_begins_at(points, starts, point_pos, segs[k].first())
                }
        }),
    decreases points.len() - point_pos,
{
    let segs = segments_from(points, tags, starts, point_pos, tag_pos, pen);
    if begins_contour(points, starts, point_pos) {
        lemma_segments_chained(points, tags, starts, point_pos + 1, tag_pos, points[point_pos]);
        let inner = segments_from(points, tags, starts, point_pos + 1, tag_pos, points[point_pos]);
        assert(segs == inner);
        assert forall|k: int| 0 <= k < segs.len() implies {
            ||| (#[trigger] segs[k]).first() == (if k == 0 {
                pen
            } else {
                segs[k - 1].last()
            })
            ||| contour_begins_at(points, starts, point_pos, segs[k].first())
        } by {
            assert(segs[k] == inner[k]);
            if contour_begins_at(points, starts, point_pos + 1, inner[k].first()) {
                let i = choose|i: int|
                    point_pos + 1 <= i && #[trigger] begins_contour(points, starts, i) && points[i]
                        == inner[k].first();
                assert(point_pos <= i && begins_contour(points, starts, i));
            } else if k == 0 {
                assert(inner[0].first() == points[point_pos]);
                assert(begins_contour(points, starts, point_pos));
            } else {
                assert(inner[k].first() == inner[k - 1].last());
            }
        }
    } else if tag_fits(points, tags, point_pos, tag_pos) {
        let next = point_pos + tags[tag_pos].new_points();
        lemma_segments_chained(points, tags, starts, next, tag_pos + 1, points[next - 1]);
        let head = segment_at(points, pen, point_pos, tags[tag_pos]);
        let rest = segments_from(points, tags, starts, next, tag_pos + 1, points[next - 1]);
        assert(head.first() == pen);
        assert(head.last() == points[next - 1]);
        assert forall|k: int| 0 <= k < segs.len() implies {
            ||| (#[trigger] segs[k]).first() == (if k == 0 {
                pen
            } else {
                segs[k - 1].last()
            })
            ||| contour_begins_at(points, starts, point_pos, segs[k].first())
        } by {
            if k > 0 {
                assert(segs[k] == rest[k - 1]);
                if k > 1 {
                    assert(segs[k - 1] == rest[k - 2]);
                }
                if contour_begins_at(points, starts, next, rest[k - 1].first()) {
                    let i = choose|i: int|
                        next <= i && #[trigger] begins_contour(points, starts, i) && points[i]
                            == rest[k - 1].first();
                    assert(point_pos <= i && begins_contour(points, starts, i));
                }
            }
        }
    }
}

/// A point is taken exactly when both coordinates lie within `MAX_COORD` of zero;
/// so one at `MAX_COORD` is, and one at `MAX_COORD + 1` is not.
pub proof fn lemma_in_range_boundary(c: i32)
    ensures
        (Vector { x: Outline::MAX_COORD, y: c }).in_range() <==> -Outline::MAX_COORD <= c
            <= Outline::MAX_COORD,
        !(Vector { x: (Outline::MAX_COORD + 1) as i32, y: c }).in_range(),
        !(Vector { x: c, y: (-Outline::MAX_COORD - 1) as i32 }).in_range(),
{
}

/// A cursor over the segments of an outline.
pub struct Segments<'a> {
    points: &'a [Vector],
    segments: &'a [SegmentType],
    starts: &'a [bool],
    point_pos: usize,
    segment_pos: usize,
    pen: Vector,
}

impl<'a> Segments<'a> {
    /// The positions lie within the two lists.
    #[verifier::type_invariant]
    pub closed spec fn inv(&self) -> bool {
        &&& self.point_pos <= self.points@.len()
        &&& self.segment_pos <= self.segments@.len()
    }

    /// The segments that `next` has still to hand out, in order.
    pub closed spec fn remaining(&self) -> Seq<Segment> {
        segments_from(
            self.points@,
            self.segments@,
            self.starts@,
            self.point_pos as int,
            self.segment_pos as int,
            self.pen,
        )
    }

    /// Hands out the next segment, or `None` once a tag is missing or finds
    /// too few points.
    pub fn next(&mut self) -> (r: Option<Segment>)
        ensures
            old(self).remaining().len() == 0 ==> r is None && final(self).remaining().len() == 0,
            old(self).remaining().len() > 0 ==> r == Some(old(self).remaining()[0])
                && final(self).remaining() == old(self).remaining().skip(1),
    {
        proof {
            use_type_invariant(&*self);
        }
        let n: usize = self.points.len();
        let mut at: usize = self.point_pos;
        let mut pen: Vector = self.pen;
        while at < n && at < self.starts.len() && self.starts[at]
            invariant
                n == self.points@.len(),
                at <= n,
                self.segment_pos <= self.segments@.len(),
                segments_from(
                    self.points@,
                    self.segments@,
                    self.starts@,
                    at as int,
                    self.segment_pos as int,
                    pen,
                ) == old(self).remaining(),
            decreases n - at,
        {
            pen = self.points[at];
            at += 1;
        }
        self.point_pos = at;
        self.pen = pen;
        if self.segment_pos >= self.segments.len() {
            return None;
        }
        let tag: SegmentType = self.segments[self.segment_pos];
        let need: usize = match tag {
            SegmentType::LineSegment => 1,
            SegmentType::QuadSpline => 2,
            SegmentType::CubicSpline => 3,
        };
        if n - at < need {
            return None;
        }
        let seg: Segment = match tag {
            SegmentType::LineSegment => Segment::LineSegment(pen, self.points[at]),
            SegmentType::QuadSpline => Segment::QuadSpline(
                pen,
                self.points[at],
                self.points[at + 1],
            ),
            SegmentType::CubicSpline => Segment::CubicSpline(
                pen,
                self.points[at],
                self.points[at + 1],
                self.points[at + 2],
            ),
        };
        self.point_pos = at + need;
        self.pen = self.points[at + need - 1];
        self.segment_pos = self.segment_pos + 1;
        proof {
            let rest = segments_from(
                self.points@,
                self.segments@,
                self.starts@,
                self.point_pos as int,
                self.segment_pos as int,
                self.pen,
            );
            assert(old(self).remaining() == seq![seg] + rest);
            assert((seq![seg] + rest).skip(1) == rest);
        }
        Some(seg)
    }
}

/// A box never shrinks: what it held before an update it holds after it.
pub proof fn lemma_widened_never_shrinks(r: Rect, x_min: i32, y_min: i32, x_max: i32, y_max: i32)
    ensures
        r.within(r.widened(x_min, y_min, x_max, y_max)),
        (Rect { x_min, y_min, x_max, y_max }).within(r.widened(x_min, y_min, x_max, y_max)),
{
}

} // verus!
