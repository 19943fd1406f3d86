use outline_raster::drawing::{Command, CommandKind, Drawing, Segment};
use outline_raster::point::Point;
use outline_raster::weirdvec::{BorrowVec, GenericVec};

type P = Point<i32>;

fn p(x: i32, y: i32) -> P {
    Point::new(x, y)
}

fn commands(d: &Drawing<P>) -> Vec<Command<P>> {
    let mut it = d.commands();
    let mut out = Vec::new();
    while let Some(c) = it.next() {
        out.push(c);
    }
    out
}

fn segments(d: &Drawing<P>) -> Vec<Segment<P>> {
    let mut it = d.segments();
    let mut out = Vec::new();
    while let Some(s) = it.next() {
        out.push(s);
    }
    out
}

fn show(c: &[Command<P>]) -> String {
    format!("{:?}", c)
}

#[test]
fn commands_come_back_as_pushed() {
    let mut d = Drawing::new();
    assert!(commands(&d).is_empty());
    let pushed = vec![
        Command::Move(p(0, 0)),
        Command::Line(p(10, 0)),
        Command::Bezier(p(20, 0), p(20, 10), p(10, 10)),
        Command::Line(p(0, 10)),
    ];
    for c in pushed.iter() {
        d.push(*c);
    }
    assert_eq!(show(&commands(&d)), show(&pushed));
    assert_eq!(d.points().len(), 6);
    assert_eq!(d.points()[3], p(20, 10));
    assert_eq!(pushed[2].kind(), CommandKind::Bezier);
    assert_eq!(pushed[0].kind(), CommandKind::Move);
    assert_eq!(pushed[1].kind(), CommandKind::Line);
    assert_eq!(pushed[2].points(), vec![p(20, 0), p(20, 10), p(10, 10)]);
    assert_eq!(pushed[1].points(), vec![p(10, 0)]);
    d.clear();
    assert!(commands(&d).is_empty());
    assert!(d.points().is_empty());
}

#[test]
fn points_can_be_moved_in_place() {
    let mut d = Drawing::new();
    d.push(Command::Move(p(1, 1)));
    d.push(Command::Line(p(5, 5)));
    d.points_mut()[1] = p(7, 8);
    assert_eq!(show(&commands(&d)), show(&[Command::Move(p(1, 1)), Command::Line(p(7, 8))]));
}

#[test]
fn strokes_follow_the_pen_and_close_each_shape() {
    let mut d = Drawing::new();
    d.push(Command::Move(p(0, 0)));
    d.push(Command::Line(p(10, 0)));
    d.push(Command::Bezier(p(20, 0), p(20, 10), p(10, 10)));
    d.push(Command::Move(p(50, 50)));
    d.push(Command::Line(p(60, 50)));
    let got = format!("{:?}", segments(&d));
    let want = format!(
        "{:?}",
        vec![
            Segment::Line(p(0, 0), p(10, 0)),
            Segment::Bezier(p(10, 0), p(20, 0), p(20, 10), p(10, 10)),
            Segment::ClosingLine(p(10, 10), p(0, 0)),
            Segment::Line(p(50, 50), p(60, 50)),
            Segment::ClosingLine(p(60, 50), p(50, 50)),
        ]
    );
    assert_eq!(got, want);
    assert_eq!(Segment::Line(p(1, 2), p(3, 4)).points(), vec![p(1, 2), p(3, 4)]);
    assert_eq!(Segment::ClosingLine(p(1, 2), p(3, 4)).points(), vec![p(1, 2), p(3, 4)]);
    assert_eq!(
        Segment::Bezier(p(1, 2), p(3, 4), p(5, 6), p(7, 8)).points(),
        vec![p(1, 2), p(3, 4), p(5, 6), p(7, 8)]
    );
}

#[test]
fn a_drawing_without_a_move_starts_at_the_default_point() {
    let mut d = Drawing::new();
    d.push(Command::Line(p(10, 0)));
    let got = format!("{:?}", segments(&d));
    let want = format!(
        "{:?}",
        vec![Segment::Line(p(0, 0), p(10, 0)), Segment::ClosingLine(p(10, 0), p(0, 0))]
    );
    assert_eq!(got, want);
    // moves alone draw nothing
    let mut d = Drawing::new();
    d.push(Command::Move(p(1, 1)));
    d.push(Command::Move(p(2, 2)));
    assert!(segments(&d).is_empty());
    let d: Drawing<P> = Drawing::default();
    assert!(segments(&d).is_empty());
}

#[test]
fn cursor_goes_on_after_the_end() {
    let mut d = Drawing::new();
    d.push(Command::Move(p(0, 0)));
    d.push(Command::Line(p(10, 0)));
    let mut it = d.segments();
    assert!(it.next().is_some());
    assert!(it.next().is_some());
    assert!(it.next().is_none());
    assert!(it.next().is_none());
    let mut it = d.commands();
    assert!(it.next().is_some());
    assert!(it.next().is_some());
    assert!(it.next().is_none());
    assert!(it.next().is_none());
}

#[test]
fn borrowed_vector() {
    let mut room = [0i32; 3];
    let mut vec = BorrowVec::from_empty(&mut room);
    assert_eq!(vec.len(), 0);
    assert_eq!(vec.capacity(), 3);
    assert_eq!(vec.pop(), None);
    assert_eq!(vec.push(1), Ok(()));
    assert_eq!(vec.push(2), Ok(()));
    assert_eq!(vec.push(3), Ok(()));
    assert_eq!(vec.push(4), Err(4));
    assert_eq!(vec.len(), 3);
    assert_eq!(vec.pop(), Some(3));
    assert_eq!(vec.len(), 2);
    {
        let (items, mut rest) = vec.split();
        assert_eq!(items, &[1, 2][..]);
        assert_eq!(rest.capacity(), 1);
        assert_eq!(rest.push(9), Ok(()));
        assert_eq!(rest.push(10), Err(10));
    }
    assert_eq!(room, [1, 2, 9]);
}

#[test]
fn borrowed_vector_under_a_new_borrow() {
    let mut room = [0u8; 2];
    let mut vec = BorrowVec::from_empty(&mut room);
    vec.push(5).unwrap();
    {
        let mut again = vec.clone_mut();
        assert_eq!(again.len(), 1);
        assert_eq!(again.push(6), Ok(()));
        assert_eq!(again.pop(), Some(6));
        assert_eq!(again.pop(), Some(5));
    }
    assert_eq!(room, [5, 6]);
}

#[test]
fn heap_vector_as_generic_vector() {
    let mut v: Vec<i32> = Vec::with_capacity(7);
    assert_eq!(GenericVec::capacity(&v), v.capacity());
    assert!(GenericVec::capacity(&v) >= 7);
    assert_eq!(GenericVec::push(&mut v, 4), Ok(()));
    assert_eq!(GenericVec::push(&mut v, 5), Ok(()));
    assert_eq!(GenericVec::len(&v), 2);
    assert_eq!(GenericVec::capacity(&v), v.capacity());
    assert!(GenericVec::capacity(&v) >= 2);
    assert_eq!(GenericVec::pop(&mut v), Some(5));
    assert_eq!(v, vec![4]);
}
