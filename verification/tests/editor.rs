use outline_raster::drawing::{Command, CommandKind, Drawing, Segment};
use outline_raster::point::Point;
use outline_raster::undo::UndoStack;

type Sketch = UndoStack<Drawing<Point<f32>>>;

/// The text of a drawing, one command after another.
fn text_of(drawing: &Drawing<Point<f32>>) -> String {
    let mut data = Vec::new();
    let mut last_kind = None;
    let mut commands = drawing.commands();
    while let Some(cmd) = commands.next() {
        let element = match cmd {
            Command::Move(p) | Command::Line(p) if last_kind == Some(cmd.kind()) => {
                format!("{} {}", p.x, p.y)
            }
            Command::Move(p) => format!("m {} {}", p.x, p.y),
            Command::Line(p) => format!("l {} {}", p.x, p.y),
            Command::Bezier(p1, p2, p3) => {
                if last_kind == Some(CommandKind::Bezier) {
                    format!("{} {} {} {} {} {}", p1.x, p1.y, p2.x, p2.y, p3.x, p3.y)
                } else {
                    format!("b {} {} {} {} {} {}", p1.x, p1.y, p2.x, p2.y, p3.x, p3.y)
                }
            }
        };
        last_kind = Some(cmd.kind());
        data.push(element);
    }
    data.join(" ")
}

#[test]
fn sketch_with_history() {
    let mut sketch: Sketch = UndoStack::new(Drawing::new());
    sketch.push(Command::Move(Point::new(0.0, 0.0)));
    sketch.commit();
    sketch.push(Command::Line(Point::new(10.0, 0.5)));
    sketch.push(Command::Line(Point::new(10.0, 10.0)));
    sketch.commit();
    assert_eq!(text_of(&sketch), "m 0 0 l 10 0.5 10 10");

    // an edit that is not committed
    sketch.points_mut()[1] = Point::new(20.0, 0.0);
    assert_eq!(text_of(&sketch), "m 0 0 l 20 0 10 10");
    sketch.undo();
    assert_eq!(text_of(&sketch), "m 0 0");
    sketch.redo();
    assert_eq!(text_of(&sketch), "m 0 0 l 10 0.5 10 10");
    assert!(sketch.can_undo());
    assert!(!sketch.can_redo());

    sketch.clear();
    sketch.commit();
    assert_eq!(text_of(&sketch), "");
    sketch.undo();
    assert_eq!(sketch.points().len(), 3);
    let same: Sketch = sketch.clone();
    assert_eq!(text_of(&same), text_of(&sketch));
    let fresh: Sketch = UndoStack::default();
    assert!(!fresh.can_undo() && !fresh.can_redo());
    assert!(fresh.points().is_empty());
}

#[test]
fn view_arithmetic() {
    let scene_pos = Point::new(100.0f32, 50.0);
    let scale = 2.0f32;
    let cursor: Point<i32> = (30, 40).into();
    let cursor_pos = Point::new(cursor.x as f32, cursor.y as f32);
    let at = scene_pos + (cursor_pos / scale);
    assert_eq!(at, Point::new(115.0, 70.0));
    let back = at - (cursor_pos / 4.0);
    assert_eq!(back, Point::new(107.5, 60.0));
    let dragged = Point::new(7, 9) - Point::new(2, 3);
    assert_eq!(dragged, Point::new(5, 6));
    let third = scene_pos * (1.0 - 0.25) + at * 0.25;
    assert_eq!(third, Point::new(103.75, 55.0));
}

#[test]
fn strokes_of_a_sketch_and_their_box() {
    let mut drawing = Drawing::new();
    drawing.push(Command::Move(Point::new(1.0f32, 2.0)));
    drawing.push(Command::Line(Point::new(5.0, 2.0)));
    drawing.push(Command::Bezier(Point::new(6.0, 3.0), Point::new(6.0, 8.0), Point::new(1.0, 9.0)));
    let (mut x_min, mut y_min, mut x_max, mut y_max) = (f32::MAX, f32::MAX, f32::MIN, f32::MIN);
    let mut lines = Vec::new();
    let mut count = 0;
    let mut strokes = drawing.segments();
    while let Some(seg) = strokes.next() {
        for pt in seg.points() {
            x_min = x_min.min(pt.x);
            y_min = y_min.min(pt.y);
            x_max = x_max.max(pt.x);
            y_max = y_max.max(pt.y);
        }
        count += 1;
        match seg {
            Segment::Line(p0, p1) => lines.push([p0.x, p0.y, p1.x, p1.y]),
            Segment::ClosingLine(..) => (),
            Segment::Bezier(p0, p1, p2, p3) => {
                lines.push([p0.x, p0.y, p1.x, p1.y]);
                lines.push([p2.x, p2.y, p3.x, p3.y]);
            }
        }
    }
    assert_eq!(count, 3);
    assert_eq!((x_min, y_min, x_max, y_max), (1.0, 2.0, 6.0, 9.0));
    assert_eq!(
        lines,
        vec![[1.0, 2.0, 5.0, 2.0], [5.0, 2.0, 6.0, 3.0], [6.0, 8.0, 1.0, 9.0]]
    );
}
