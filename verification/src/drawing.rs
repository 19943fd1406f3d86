//! Drawings as an editor keeps them: a list of commands, read back as
//! commands or as the strokes that the pen makes.

use vstd::prelude::*;

verus! {

/// One drawing command with the points it brings.
#[derive(Debug, Copy, Clone)]
pub enum Command<P> {
    Move(P),
    Line(P),
    Bezier(P, P, P),
}

/// The kind of a drawing command, without its points.
#[derive(Debug, Copy, Clone, PartialEq, Eq, Structural)]
pub enum CommandKind {
    Move,
    Line,
    Bezier,
}

impl CommandKind {
    /// How many points a command of this kind brings.
    pub open spec fn arity(self) -> nat {
        match self {
            CommandKind::Move => 1,
            CommandKind::Line => 1,
            CommandKind::Bezier => 3,
        }
    }
}

impl<P> Command<P> {
    pub open spec fn spec_kind(self) -> CommandKind {
        match self {
            Command::Move(..) => CommandKind::Move,
            Command::Line(..) => CommandKind::Line,
            Command::Bezier(..) => CommandKind::Bezier,
        }
    }

    /// The points of the command, in order.
    pub open spec fn spec_points(self) -> Seq<P> {
        match self {
            Command::Move(p) => seq![p],
            Command::Line(p) => seq![p],
            Command::Bezier(p1, p2, p3) => seq![p1, p2, p3],
        }
    }

    #[inline]
    pub fn kind(&self) -> (r: CommandKind)
        ensures
            r == self.spec_kind(),
    {
        match self {
            Command::Move(..) => CommandKind::Move,
            Command::Line(..) => CommandKind::Line,
            Command::Bezier(..) => CommandKind::Bezier,
        }
    }

    /// The points of the command, in order.
    pub fn points(self) -> (r: Vec<P>)
        ensures
            r@ == self.spec_points(),
    {
        let mut v: Vec<P> = Vec::new();
        match self {
            Command::Move(p) => {
                v.push(p);
            },
            Command::Line(p) => {
                v.push(p);
            },
            Command::Bezier(p1, p2, p3) => {
                v.push(p1);
                v.push(p2);
                v.push(p3);
            },
        }
        assert(v@ =~= self.spec_points());
        v
    }
}

/// A stroke of a drawing between two pen positions.
#[derive(Debug, Copy, Clone)]
pub enum Segment<P> {
    Line(P, P),
    /// The line that closes a shape: from where the pen stands back to where the shape began.
    ClosingLine(P, P),
    Bezier(P, P, P, P),
}

impl<P> Segment<P> {
    /// The points of the segment, in order.
    pub open spec fn spec_points(self) -> Seq<P> {
        match self {
            Segment::Line(p0, p1) => seq![p0, p1],
            Segment::ClosingLine(p0, p1) => seq![p0, p1],
            Segment::Bezier(p0, p1, p2, p3) => seq![p0, p1, p2, p3],
        }
    }

    /// The points of the segment, in order.
    pub fn points(self) -> (r: Vec<P>)
        ensures
            r@ == self.spec_points(),
    {
        let mut v: Vec<P> = Vec::new();
        match self {
            Segment::Line(p0, p1) => {
                v.push(p0);
                v.push(p1);
            },
            Segment::ClosingLine(p0, p1) => {
                v.push(p0);
                v.push(p1);
            },
            Segment::Bezier(p0, p1, p2, p3) => {
                v.push(p0);
                v.push(p1);
                v.push(p2);
                v.push(p3);
            },
        }
        assert(v@ =~= self.spec_points());
        v
    }
}

/// What a drawing holds: the kinds of its commands and, apart from them, all their points.
pub struct DrawingView<P> {
    pub kinds: Seq<CommandKind>,
    pub points: Seq<P>,
}

impl<P> DrawingView<P> {
    pub open spec fn empty() -> Self {
        DrawingView { kinds: Seq::empty(), points: Seq::empty() }
    }

    /// The drawing with `command` at its end.
    pub open spec fn pushed(self, command: Command<P>) -> Self {
        DrawingView {
            kinds: self.kinds.push(command.spec_kind()),
            points: self.points + command.spec_points(),
        }
    }
}

/// A list of drawing commands, kept as a list of kinds and a list of points.
#[derive(Debug, Clone)]
pub struct Drawing<P> {
    segments: Vec<CommandKind>,
    points: Vec<P>,
}

impl<P> View for Drawing<P> {
    type V = DrawingView<P>;

    closed spec fn view(&self) -> DrawingView<P> {
        DrawingView { kinds: self.segments@, points: self.points@ }
    }
}

impl<P> Drawing<P> {
    #[inline]
    pub fn new() -> (r: Self)
        ensures
            r@ == DrawingView::<P>::empty(),
    {
        Drawing { segments: Vec::new(), points: Vec::new() }
    }

    /// Appends a command.
    pub fn push(&mut self, command: Command<P>)
        ensures
            final(self)@ == old(self)@.pushed(command),
    {
        self.segments.push(command.kind());
        match command {
            Command::Move(p) => {
                self.points.push(p);
            },
            Command::Line(p) => {
                self.points.push(p);
            },
            Command::Bezier(p1, p2, p3) => {
                self.points.push(p1);
                self.points.push(p2);
                self.points.push(p3);
            },
        }
        assert(final(self)@.points =~= old(self)@.points + command.spec_points());
    }

    /// Removes every command.
    pub fn clear(&mut self)
        ensures
            final(self)@ == DrawingView::<P>::empty(),
    {
        self.segments.clear();
        self.points.clear();
    }

    /// A cursor over the strokes of the drawing. The pen starts at the default point.
    pub fn segments<'a>(&'a self) -> (r: SegmentsIter<'a, P>) where P: Default + Copy
        ensures
            r.kinds() == self@.kinds,
            r.points() == self@.points,
            r.state().kind_pos == 0,
            r.state().point_pos == 0,
            call_ensures(P::default, (), r.state().pen),
            r.state().shape_start is None,
    {
        SegmentsIter {
            segments: self.segments.as_slice(),
            points: self.points.as_slice(),
            kind_pos: 0,
            point_pos: 0,
            pen: P::default(),
            shape_start: None,
        }
    }

    /// A cursor over the commands of the drawing.
    pub fn commands<'a>(&'a self) -> (r: CommandsIter<'a, P>) where P: Copy
        ensures
            r.kinds() == self@.kinds,
            r.points() == self@.points,
            r.kind_pos() == 0,
            r.point_pos() == 0,
    {
        CommandsIter {
            segments: self.segments.as_slice(),
            points: self.points.as_slice(),
            kind_pos: 0,
            point_pos: 0,
        }
    }

    #[inline]
    pub fn points(&self) -> (r: &[P])
        ensures
            r@ == self@.points,
    {
        self.points.as_slice()
    }

    /// The points, to be moved in place. The commands stay as they are.
    #[inline]
    pub fn points_mut(&mut self) -> (r: &mut [P])
        ensures
            r@ == old(self)@.points,
            final(self)@ == (DrawingView { kinds: old(self)@.kinds, points: final(r)@ }),
    {
        self.points.as_mut_slice()
    }
}

impl<P> Default for Drawing<P> {
    #[inline]
    fn default() -> (r: Self)
        ensures
            r@ == DrawingView::<P>::empty(),
    {
        Drawing { segments: Vec::new(), points: Vec::new() }
    }
}

/// What one call of `CommandsIter::next` does at the given positions: the
/// command it hands out, and the positions after it. A kind for which too few
/// points are left uses up the points and hands out nothing.
pub open spec fn command_step<P>(
    kinds: Seq<CommandKind>,
    points: Seq<P>,
    kind_pos: int,
    point_pos: int,
) -> (Option<Command<P>>, int, int) {
    if kind_pos >= kinds.len() {
        (None, kind_pos, point_pos)
    } else if point_pos + kinds[kind_pos].arity() > points.len() {
        (None, kind_pos + 1, points.len() as int)
    } else {
        (
            Some(
                match kinds[kind_pos] {
                    CommandKind::Move => Command::Move(points[point_pos]),
                    CommandKind::Line => Command::Line(points[point_pos]),
                    CommandKind::Bezier => Command::Bezier(
                        points[point_pos],
                        points[point_pos + 1],
                        points[point_pos + 2],
                    ),
                },
            ),
            kind_pos + 1,
            point_pos + kinds[kind_pos].arity(),
        )
    }
}

/// A cursor over the commands of a drawing.
pub struct CommandsIter<'a, P> {
    segments: &'a [CommandKind],
    points: &'a [P],
    kind_pos: usize,
    point_pos: usize,
}

impl<'a, P> CommandsIter<'a, P> {
    #[verifier::type_invariant]
    closed spec fn inv(&self) -> bool {
        &&& self.kind_pos <= self.segments@.len()
        &&& self.point_pos <= self.points@.len()
    }
}

impl<'a, P: Copy> CommandsIter<'a, P> {
    pub closed spec fn kinds(&self) -> Seq<CommandKind> {
        self.segments@
    }

    pub closed spec fn points(&self) -> Seq<P> {
        self.points@
    }

    pub closed spec fn kind_pos(&self) -> int {
        self.kind_pos as int
    }

    pub closed spec fn point_pos(&self) -> int {
        self.point_pos as int
    }

    /// Hands out the next command.
    pub fn next(&mut self) -> (r: Option<Command<P>>)
        ensures
            final(self).kinds() == old(self).kinds(),
            final(self).points() == old(self).points(),
            (r, final(self).kind_pos(), final(self).point_pos()) == command_step(
                old(self).kinds(),
                old(self).points(),
                old(self).kind_pos(),
                old(self).point_pos(),
            ),
    {
        proof {
            use_type_invariant(&*self);
        }
        if self.kind_pos >= self.segments.len() {
            return None;
        }
        let kind: CommandKind = self.segments[self.kind_pos];
        self.kind_pos = self.kind_pos + 1;
        let at: usize = self.point_pos;
        let left: usize = self.points.len() - at;
        match kind {
            CommandKind::Move => {
                if left < 1 {
                    return None;
                }
                self.point_pos = at + 1;
                Some(Command::Move(self.points[at]))
            },
            CommandKind::Line => {
                if left < 1 {
                    return None;
                }
                self.point_pos = at + 1;
                Some(Command::Line(self.points[at]))
            },
            CommandKind::Bezier => {
                if left < 3 {
                    self.point_pos = self.points.len();
                    return None;
                }
                self.point_pos = at + 3;
                Some(Command::Bezier(self.points[at], self.points[at + 1], self.points[at + 2]))
            },
        }
    }
}

/// Where a cursor over the strokes of a drawing stands.
pub struct PenState<P> {
    /// How many command kinds were read.
    pub kind_pos: int,
    /// How many points were read.
    pub point_pos: int,
    /// Where the pen stands.
    pub pen: P,
    /// Where the shape that is still open began, if one is open.
    pub shape_start: Option<P>,
}

/// What one call of `SegmentsIter::next` does in the given state: the stroke it
/// hands out, and the state after it.
///
/// Once the commands have run out, the shape that is still open is closed. A
/// move closes the open shape; without one it only sets the pen, and the next
/// command is looked at right away. A line or a curve opens a shape where none
/// is open. A command for which too few points are left uses up the points and
/// hands out nothing.
pub open spec fn segment_step<P>(kinds: Seq<CommandKind>, points: Seq<P>, s: PenState<P>) -> (
    Option<Segment<P>>,
    PenState<P>,
)
    decreases kinds.len() - s.kind_pos,
{
    if s.kind_pos < 0 || s.kind_pos >= kinds.len() {
        match s.shape_start {
            Some(start) => (
                Some(Segment::ClosingLine(s.pen, start)),
                PenState { shape_start: None, ..s },
            ),
            None => (None, s),
        }
    } else if s.point_pos + kinds[s.kind_pos].arity() > points.len() {
        (None, PenState { kind_pos: s.kind_pos + 1, point_pos: points.len() as int, ..s })
    } else {
        let opened = match s.shape_start {
            Some(start) => Some(start),
            None => Some(s.pen),
        };
        match kinds[s.kind_pos] {
            CommandKind::Move => {
                let moved = PenState {
                    kind_pos: s.kind_pos + 1,
                    point_pos: s.point_pos + 1,
                    pen: points[s.point_pos],
                    shape_start: None,
                };
                match s.shape_start {
                    Some(start) => (Some(Segment::ClosingLine(s.pen, start)), moved),
                    None => segment_step(kinds, points, moved),
                }
            },
            CommandKind::Line => (
                Some(Segment::Line(s.pen, points[s.point_pos])),
                PenState {
                    kind_pos: s.kind_pos + 1,
                    point_pos: s.point_pos + 1,
                    pen: points[s.point_pos],
                    shape_start: opened,
                },
            ),
            CommandKind::Bezier => (
                Some(
                    Segment::Bezier(
                        s.pen,
                        points[s.point_pos],
                        points[s.point_pos + 1],
                        points[s.point_pos + 2],
                    ),
                ),
                PenState {
                    kind_pos: s.kind_pos + 1,
                    point_pos: s.point_pos + 3,
                    pen: points[s.point_pos + 2],
                    shape_start: opened,
                },
            ),
        }
    }
}

/// A cursor over the strokes of a drawing: it follows the pen from command to
/// command and closes each shape with a line back to where it began.
pub struct SegmentsIter<'a, P> {
    segments: &'a [CommandKind],
    points: &'a [P],
    kind_pos: usize,
    point_pos: usize,
    pen: P,
    shape_start: Option<P>,
}

impl<'a, P> SegmentsIter<'a, P> {
    #[verifier::type_invariant]
    closed spec fn inv(&self) -> bool {
        &&& self.kind_pos <= self.segments@.len()
        &&& self.point_pos <= self.points@.len()
    }
}

impl<'a, P: Copy> SegmentsIter<'a, P> {
    pub closed spec fn kinds(&self) -> Seq<CommandKind> {
        self.segments@
    }

    pub closed spec fn points(&self) -> Seq<P> {
        self.points@
    }

    pub closed spec fn state(&self) -> PenState<P> {
        PenState {
            kind_pos: self.kind_pos as int,
            point_pos: self.point_pos as int,
            pen: self.pen,
            shape_start: self.shape_start,
        }
    }

    /// Hands out the next stroke.
    pub fn next(&mut self) -> (r: Option<Segment<P>>)
        ensures
            final(self).kinds() == old(self).kinds(),
            final(self).points() == old(self).points(),
            (r, final(self).state()) == segment_step(
                old(self).kinds(),
                old(self).points(),
                old(self).state(),
            ),
    {
        proof {
            use_type_invariant(&*self);
        }
        loop
            invariant
                self.segments@ == old(self).segments@,
                self.points@ == old(self).points@,
                self.kind_pos <= self.segments@.len(),
                self.point_pos <= self.points@.len(),
                segment_step(self.segments@, self.points@, self.state()) == segment_step(
                    old(self).kinds(),
                    old(self).points(),
                    old(self).state(),
                ),
            decreases self.segments@.len() - self.kind_pos,
        {
            if self.kind_pos >= self.segments.len() {
                let start: Option<P> = self.shape_start;
                self.shape_start = None;
                return match start {
                    Some(s) => Some(Segment::ClosingLine(self.pen, s)),
                    None => None,
                };
            }
            let kind: CommandKind = self.segments[self.kind_pos];
            let at: usize = self.point_pos;
            let left: usize = self.points.len() - at;
            let prev: P = self.pen;
            match kind {
                CommandKind::Move => {
                    self.kind_pos = self.kind_pos + 1;
                    if left < 1 {
                        return None;
                    }
                    self.point_pos = at + 1;
                    self.pen = self.points[at];
                    let start: Option<P> = self.shape_start;
                    self.shape_start = None;
                    match start {
                        Some(s) => {
                            return Some(Segment::ClosingLine(prev, s));
                        },
                        None => {},
                    }
                },
                CommandKind::Line => {
                    self.kind_pos = self.kind_pos + 1;
                    if left < 1 {
                        return None;
                    }
                    self.point_pos = at + 1;
                    self.pen = self.points[at];
                    if self.shape_start.is_none() {
                        self.shape_start = Some(prev);
                    }
                    return Some(Segment::Line(prev, self.pen));
                },
                CommandKind::Bezier => {
                    self.kind_pos = self.kind_pos + 1;
                    if left < 3 {
                        self.point_pos = self.points.len();
                        return None;
                    }
                    self.point_pos = at + 3;
                    self.pen = self.points[at + 2];
                    if self.shape_start.is_none() {
                        self.shape_start = Some(prev);
                    }
                    return Some(
                        Segment::Bezier(prev, self.points[at], self.points[at + 1], self.pen),
                    );
                },
            }
        }
    }
}

/// Reading the commands of a drawing one by one gives back what was pushed:
/// after a drawing `d`, the step at the end of `d` hands out `command`.
pub proof fn lemma_command_step_reads_push<P>(d: DrawingView<P>, command: Command<P>)
    ensures
        command_step(
            d.pushed(command).kinds,
            d.pushed(command).points,
            d.kinds.len() as int,
            d.points.len() as int,
        ) == (
            Some(command),
            d.kinds.len() as int + 1,
            d.points.len() as int + command.spec_points().len() as int,
        ),
{
}

} // verus!
