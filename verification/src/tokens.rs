//! The tokens of a drawing in text, followed with the pen.

use vstd::prelude::*;
use crate::outline::{div_towards_zero, Rect, Segment, Vector};

verus! {

/// What a token of a drawing says to do with its point.
#[derive(Debug, Copy, Clone, PartialEq, Eq, Structural)]
pub enum TokenType {
    /// Close the shape and move the pen.
    Move,
    /// Move the pen and leave the shape open.
    MoveNc,
    /// Draw a line to the point.
    Line,
    /// One of three points of a cubic curve.
    CubicBezier,
    /// One of three points of a cubic b-spline.
    BSpline,
}

/// One point of a drawing with what is to be done with it.
#[derive(Debug, Copy, Clone, PartialEq, Eq, Structural)]
pub struct DrawingToken {
    pub token_type: TokenType,
    pub point: Vector,
}

/// Where the pen stands, what was drawn so far and the box that holds it.
pub struct Trace {
    /// Where the pen stands.
    pub pen: Vector,
    /// Where the shape that is still open began, if one is open.
    pub shape_start: Option<Vector>,
    /// The segments drawn so far.
    pub segments: Seq<Segment>,
    /// The box of the points that were met so far.
    pub cbox: Rect,
}

/// A third of the way from `p` to `q`, rounded towards `p`.
pub open spec fn third(p: Vector, q: Vector) -> Vector {
    Vector {
        x: div_towards_zero(q.x - p.x, 3) as i32,
        y: div_towards_zero(q.y - p.y, 3) as i32,
    }
}

/// Half of the way from `d` to `e`, rounded down.
pub open spec fn half_step(d: Vector, e: Vector) -> Vector {
    Vector { x: ((e.x - d.x) / 2) as i32, y: ((e.y - d.y) / 2) as i32 }
}

/// The cubic curve that four points describe: as its control points, or
/// where `spline` is set as four points of a uniform b-spline, which are
/// turned into the control points of the piece between the middle two.
pub open spec fn curve(p: Seq<Vector>, spline: bool) -> Segment {
    if spline {
        let p01 = third(p[0], p[1]);
        let p12 = third(p[1], p[2]);
        let p23 = third(p[2], p[3]);
        let d0 = half_step(p01, p12);
        let d3 = half_step(p12, p23);
        Segment::CubicSpline(
            Vector { x: (p[1].x + d0.x) as i32, y: (p[1].y + d0.y) as i32 },
            Vector { x: (p[1].x + p12.x) as i32, y: (p[1].y + p12.y) as i32 },
            Vector { x: (p[2].x - p12.x) as i32, y: (p[2].y - p12.y) as i32 },
            Vector { x: (p[2].x + d3.x) as i32, y: (p[2].y + d3.y) as i32 },
        )
    } else {
        Segment::CubicSpline(p[0], p[1], p[2], p[3])
    }
}

/// The trace with a point in its box.
pub open spec fn met(t: Trace, p: Vector) -> Trace {
    Trace { cbox: t.cbox.widened(p.x, p.y, p.x, p.y), ..t }
}

/// Where a shape that a segment from the pen belongs to began.
pub open spec fn opened(t: Trace) -> Option<Vector> {
    match t.shape_start {
        Some(s) => Some(s),
        None => Some(t.pen),
    }
}

/// The token at `i` starts a curve: it and the two tokens behind it are of one kind.
pub open spec fn curve_at(tokens: Seq<DrawingToken>, i: int) -> bool {
    &&& i + 2 < tokens.len()
    &&& tokens[i + 1].token_type == tokens[i].token_type
    &&& tokens[i + 2].token_type == tokens[i].token_type
}

/// The trace after the tokens from `i` on were followed and the shape that
/// is open at the end was closed.
///
/// A move closes the open shape with a line back to where it began. A line
/// or a curve starts a shape where none is open. A curve takes three tokens
/// of its kind; a token of a curve that is not followed by two more of its
/// kind is passed over.
pub open spec fn traced(tokens: Seq<DrawingToken>, i: int, t: Trace) -> Trace
    decreases tokens.len() - i,
{
    if i < 0 || i >= tokens.len() {
        match t.shape_start {
            Some(s) => Trace {
                segments: t.segments.push(Segment::LineSegment(t.pen, s)),
                shape_start: None,
                ..t
            },
            None => t,
        }
    } else {
        let p = tokens[i].point;
        match tokens[i].token_type {
            TokenType::MoveNc => traced(tokens, i + 1, met(Trace { pen: p, ..t }, p)),
            TokenType::Move => traced(
                tokens,
                i + 1,
                met(
                    Trace {
                        pen: p,
                        shape_start: None,
                        segments: match t.shape_start {
                            Some(s) => t.segments.push(Segment::LineSegment(t.pen, s)),
                            None => t.segments,
                        },
                        ..t
                    },
                    p,
                ),
            ),
            TokenType::Line => traced(
                tokens,
                i + 1,
                met(
                    Trace {
                        pen: p,
                        shape_start: opened(t),
                        segments: t.segments.push(Segment::LineSegment(t.pen, p)),
                        ..t
                    },
                    p,
                ),
            ),
            _ => if curve_at(tokens, i) {
                let points = seq![t.pen, p, tokens[i + 1].point, tokens[i + 2].point];
                traced(
                    tokens,
                    i + 3,
                    met(
                        met(
                            met(
                                met(
                                    Trace {
                                        pen: points[3],
                                        shape_start: opened(t),
                                        segments: t.segments.push(
                                            curve(points, tokens[i].token_type is BSpline),
                                        ),
                                        ..t
                                    },
                                    points[0],
                                ),
                                points[1],
                            ),
                            points[2],
                        ),
                        points[3],
                    ),
                )
            } else {
                traced(tokens, i + 1, t)
            },
        }
    }
}

/// The trace before the first token: the pen at the origin, nothing drawn.
pub open spec fn untraced() -> Trace {
    Trace {
        pen: Vector { x: 0, y: 0 },
        shape_start: None,
        segments: Seq::empty(),
        cbox: Rect::empty(),
    }
}

/// Puts the curve through four points at the end of `segments` and the
/// points in the box.
pub fn add_curve(segments: &mut Vec<Segment>, cbox: &mut Rect, p: [Vector; 4], spline: bool)
    requires
        p[0].in_range(),
        p[1].in_range(),
        p[2].in_range(),
        p[3].in_range(),
    ensures
        final(segments)@ == old(segments)@.push(curve(p@, spline)),
        *final(cbox) == old(cbox).widened(p[0].x, p[0].y, p[0].x, p[0].y).widened(
            p[1].x,
            p[1].y,
            p[1].x,
            p[1].y,
        ).widened(p[2].x, p[2].y, p[2].x, p[2].y).widened(p[3].x, p[3].y, p[3].x, p[3].y),
{
    cbox.update(p[0].x, p[0].y, p[0].x, p[0].y);
    cbox.update(p[1].x, p[1].y, p[1].x, p[1].y);
    cbox.update(p[2].x, p[2].y, p[2].x, p[2].y);
    cbox.update(p[3].x, p[3].y, p[3].x, p[3].y);
    if spline {
        proof {
            lemma_third_bound(p[0], p[1]);
            lemma_third_bound(p[1], p[2]);
            lemma_third_bound(p[2], p[3]);
        }
        let p01: Vector = (p[1] - p[0]) / 3;
        let p12: Vector = (p[2] - p[1]) / 3;
        let p23: Vector = (p[3] - p[2]) / 3;
        let d0: Vector = halve(p12 - p01);
        let d3: Vector = halve(p23 - p12);
        let q0: Vector = p[1] + d0;
        let q3: Vector = p[2] + d3;
        let q1: Vector = p[1] + p12;
        let q2: Vector = p[2] - p12;
        segments.push(Segment::CubicSpline(q0, q1, q2, q3));
    } else {
        segments.push(Segment::CubicSpline(p[0], p[1], p[2], p[3]));
    }
}

/// Half of a vector, rounded down.
fn halve(v: Vector) -> (r: Vector)
    requires
        -0x7fff_fff8 <= v.x,
        -0x7fff_fff8 <= v.y,
    ensures
        r.x == v.x as int / 2,
        r.y == v.y as int / 2,
{
    Vector { x: crate::flatten::floor_div(v.x, 2), y: crate::flatten::floor_div(v.y, 2) }
}

/// A third of the way between two points in range is short.
proof fn lemma_third_bound(p: Vector, q: Vector)
    requires
        p.in_range(),
        q.in_range(),
    ensures
        -0x0aaa_aaaa <= third(p, q).x <= 0x0aaa_aaaa,
        -0x0aaa_aaaa <= third(p, q).y <= 0x0aaa_aaaa,
        third(p, q).x == div_towards_zero(q.x - p.x, 3),
        third(p, q).y == div_towards_zero(q.y - p.y, 3),
{
    let dx = q.x - p.x;
    let dy = q.y - p.y;
    assert(crate::outline::abs_int(3) == 3);
    assert(0 <= crate::outline::abs_int(dx) / 3 <= 0x0aaa_aaaa);
    assert(0 <= crate::outline::abs_int(dy) / 3 <= 0x0aaa_aaaa);
    assert(-0x0aaa_aaaa <= div_towards_zero(dx, 3) <= 0x0aaa_aaaa);
    assert(-0x0aaa_aaaa <= div_towards_zero(dy, 3) <= 0x0aaa_aaaa);
}

/// Follows the tokens of a drawing with the pen and hands back the
/// segments that it draws and the box of the points that it meets.
pub fn segments_of_tokens(tokens: &[DrawingToken]) -> (r: (Vec<Segment>, Rect))
    requires
        forall|i: int| 0 <= i < tokens@.len() ==> (#[trigger] tokens@[i]).point.in_range(),
    ensures
        r.0@ == traced(tokens@, 0, untraced()).segments,
        r.1 == traced(tokens@, 0, untraced()).cbox,
{
    let mut cbox = Rect::default();
    cbox.reset();
    let mut segments: Vec<Segment> = Vec::new();
    let mut pen = Vector::default();
    let mut shape_start: Option<Vector> = None;
    let n: usize = tokens.len();
    let mut i: usize = 0;
    while i < n
        invariant
            n == tokens@.len(),
            0 <= i <= n,
            pen.in_range(),
            forall|k: int| 0 <= k < tokens@.len() ==> (#[trigger] tokens@[k]).point.in_range(),
            traced(tokens@, i as int, Trace { pen, shape_start, segments: segments@, cbox })
                == traced(tokens@, 0, untraced()),
        decreases n - i,
    {
        let token: DrawingToken = tokens[i];
        let to: Vector = token.point;
        proof {
            assert(tokens@[i as int].point.in_range());
        }
        match token.token_type {
            TokenType::MoveNc => {
                pen = to;
                cbox.update(pen.x, pen.y, pen.x, pen.y);
                i = i + 1;
            },
            TokenType::Move => {
                match shape_start {
                    Some(start) => {
                        segments.push(Segment::LineSegment(pen, start));
                    },
                    None => {},
                }
                shape_start = None;
                pen = to;
                cbox.update(pen.x, pen.y, pen.x, pen.y);
                i = i + 1;
            },
            TokenType::Line => {
                cbox.update(to.x, to.y, to.x, to.y);
                segments.push(Segment::LineSegment(pen, to));
                if shape_start.is_none() {
                    shape_start = Some(pen);
                }
                pen = to;
                i = i + 1;
            },
            _ => {
                let ty: TokenType = token.token_type;
                if n - i > 2 && same_type(tokens[i + 1].token_type, ty) && same_type(
                    tokens[i + 2].token_type,
                    ty,
                ) {
                    let t2: DrawingToken = tokens[i + 1];
                    let t3: DrawingToken = tokens[i + 2];
                    proof {
                        assert(tokens@[i + 1].point.in_range());
                        assert(tokens@[i + 2].point.in_range());
                    }
                    let points: [Vector; 4] = [pen, to, t2.point, t3.point];
                    proof {
                        assert(points@ =~= seq![pen, to, t2.point, t3.point]);
                    }
                    add_curve(&mut segments, &mut cbox, points, same_type(ty, TokenType::BSpline));
                    if shape_start.is_none() {
                        shape_start = Some(pen);
                    }
                    pen = t3.point;
                    i = i + 3;
                } else {
                    i = i + 1;
                }
            },
        }
    }
    match shape_start {
        Some(start) => {
            segments.push(Segment::LineSegment(pen, start));
        },
        None => {},
    }
    (segments, cbox)
}

/// Whether two token types are the same.
pub(crate) fn same_type(a: TokenType, b: TokenType) -> (r: bool)
    ensures
        r == (a == b),
{
    a == b
}

} // verus!
