use outline_raster::error::RasterError;
use outline_raster::outline::{Outline, Rect, Segment, SegmentType, Vector};

fn v(x: i32, y: i32) -> Vector {
    Vector { x, y }
}

#[test]
fn add_point_takes_points_in_range() {
    let mut o = Outline::new(4, 4);
    assert_eq!(o.add_point(v(0, 0), None), Ok(()));
    assert_eq!(o.add_point(v(-5, 7), Some(SegmentType::LineSegment)), Ok(()));
    assert_eq!(o.points(), &[v(0, 0), v(-5, 7)][..]);
}

#[test]
fn add_point_boundary() {
    let max = Outline::MAX_COORD;
    assert_eq!(max, (1 << 28) - 1);
    let mut o = Outline::new(0, 0);
    assert_eq!(o.add_point(v(max, -max), None), Ok(()));
    assert_eq!(o.add_point(v(max + 1, 0), None), Err(RasterError::CoordinateOverflow));
    assert_eq!(o.add_point(v(0, -max - 1), None), Err(RasterError::CoordinateOverflow));
    assert_eq!(o.add_point(v(i32::MIN, 0), None), Err(RasterError::CoordinateOverflow));
    assert_eq!(o.add_point(v(0, i32::MAX), None), Err(RasterError::CoordinateOverflow));
    // nothing of a refused point is kept
    assert_eq!(o.points(), &[v(max, -max)][..]);
    assert_eq!(o.segments().next(), None);
}

#[test]
fn vector_and_rect() {
    assert_eq!(v(-3, 4).abs(), v(3, 4));
    assert_eq!(v(-3, 4).checked_abs(), Some(v(3, 4)));
    assert_eq!(v(i32::MIN, 4).checked_abs(), None);
    assert_eq!(v(4, i32::MIN).checked_abs(), None);
    assert_eq!(v(i32::MAX, -i32::MAX).checked_abs(), Some(v(i32::MAX, i32::MAX)));
    assert_eq!(Vector::default(), v(0, 0));
    assert_eq!(v(1, 2) + v(10, 20), v(11, 22));
    assert_eq!(v(1, 2) - v(10, 20), v(-9, -18));
    assert_eq!(v(1, 2) + 5, v(6, 7));
    assert_eq!(v(1, 2) - 5, v(-4, -3));
    assert_eq!(v(-7, 7) >> 1, v(-4, 3));
    assert_eq!(v(-7, 7) / 2, v(-3, 3));
    assert_eq!(v(-7, 7) / -2, v(3, -3));

    let mut r = Rect::default();
    assert_eq!(r, Rect { x_min: 0, y_min: 0, x_max: 0, y_max: 0 });
    r.reset();
    assert_eq!(r, Rect { x_min: i32::MAX, y_min: i32::MAX, x_max: i32::MIN, y_max: i32::MIN });
    r.update(5, 6, 7, 8);
    assert_eq!(r, Rect { x_min: 5, y_min: 6, x_max: 7, y_max: 8 });
    r.update(6, 0, 6, 20);
    assert_eq!(r, Rect { x_min: 5, y_min: 0, x_max: 7, y_max: 20 });
    // it never shrinks
    r.update(6, 6, 6, 6);
    assert_eq!(r, Rect { x_min: 5, y_min: 0, x_max: 7, y_max: 20 });
}

#[test]
fn close_contour_closes_once() {
    let mut o = Outline::new(0, 0);
    // nothing to close
    o.close_contour();
    assert_eq!(o.points(), &[][..]);
    o.add_point(v(0, 0), None).unwrap();
    o.add_point(v(10, 0), Some(SegmentType::LineSegment)).unwrap();
    o.add_point(v(10, 10), Some(SegmentType::LineSegment)).unwrap();
    o.close_contour();
    let closed: Vec<Vector> = o.points().to_vec();
    // the line back takes one new point, the one the contour began at
    assert_eq!(closed, vec![v(0, 0), v(10, 0), v(10, 10), v(0, 0)]);
    // a second time nothing changes
    o.close_contour();
    assert_eq!(o.points(), &closed[..]);
    let mut it = o.segments();
    assert_eq!(it.next(), Some(Segment::LineSegment(v(0, 0), v(10, 0))));
    assert_eq!(it.next(), Some(Segment::LineSegment(v(10, 0), v(10, 10))));
    assert_eq!(it.next(), Some(Segment::LineSegment(v(10, 10), v(0, 0))));
    assert_eq!(it.next(), None);
    assert_eq!(it.next(), None);
    // the next point opens a new contour, which starts at that point
    o.add_point(v(50, 50), None).unwrap();
    o.add_point(v(60, 50), Some(SegmentType::LineSegment)).unwrap();
    o.close_contour();
    assert_eq!(&o.points()[4..], &[v(50, 50), v(60, 50), v(50, 50)][..]);
    let mut it = o.segments();
    for _ in 0..3 {
        assert!(it.next().is_some());
    }
    assert_eq!(it.next(), Some(Segment::LineSegment(v(50, 50), v(60, 50))));
    assert_eq!(it.next(), Some(Segment::LineSegment(v(60, 50), v(50, 50))));
    assert_eq!(it.next(), None);
}

#[test]
fn close_contour_draws_the_line_back_to_the_start() {
    let (p0, p1, p2) = (v(1, 2), v(30, 4), v(5, 60));
    let mut o = Outline::new(4, 3);
    o.add_point(p0, None).unwrap();
    o.add_point(p1, Some(SegmentType::LineSegment)).unwrap();
    o.add_point(p2, Some(SegmentType::LineSegment)).unwrap();
    let before: Vec<Vector> = o.points().to_vec();
    o.close_contour();
    assert_eq!(&o.points()[..3], &before[..]);
    let mut it = o.segments();
    assert_eq!(it.next(), Some(Segment::LineSegment(p0, p1)));
    assert_eq!(it.next(), Some(Segment::LineSegment(p1, p2)));
    assert_eq!(it.next(), Some(Segment::LineSegment(p2, p0)));
    assert_eq!(it.next(), None);
}

#[test]
fn segments_start_where_the_one_before_ended() {
    let mut o = Outline::new(7, 3);
    for i in 0..7 {
        o.add_point(v(i, -i), None).unwrap();
    }
    o.add_segment(SegmentType::CubicSpline);
    o.add_segment(SegmentType::QuadSpline);
    o.add_segment(SegmentType::LineSegment);
    let mut it = o.segments();
    assert_eq!(it.next(), Some(Segment::CubicSpline(v(0, 0), v(1, -1), v(2, -2), v(3, -3))));
    assert_eq!(it.next(), Some(Segment::QuadSpline(v(3, -3), v(4, -4), v(5, -5))));
    assert_eq!(it.next(), Some(Segment::LineSegment(v(5, -5), v(6, -6))));
    assert_eq!(it.next(), None);
    // a cursor made anew starts anew
    assert_eq!(
        o.segments().next(),
        Some(Segment::CubicSpline(v(0, 0), v(1, -1), v(2, -2), v(3, -3)))
    );
    // where the points run out the segments end
    o.add_segment(SegmentType::QuadSpline);
    o.add_point(v(9, -9), None).unwrap();
    let mut it = o.segments();
    for _ in 0..3 {
        assert!(it.next().is_some());
    }
    assert_eq!(it.next(), None);
    assert_eq!(it.next(), None);
    // and go on once the points are there
    o.add_point(v(10, -10), None).unwrap();
    let mut it = o.segments();
    for _ in 0..3 {
        assert!(it.next().is_some());
    }
    assert_eq!(it.next(), Some(Segment::QuadSpline(v(6, -6), v(9, -9), v(10, -10))));
    assert_eq!(it.next(), None);
}

#[test]
fn cbox_holds_every_point() {
    let mut o = Outline::new(3, 0);
    o.add_point(v(5, -7), None).unwrap();
    o.add_point(v(-2, 3), None).unwrap();
    o.add_point(v(0, 100), None).unwrap();
    let mut r = Rect::default();
    r.reset();
    o.update_cbox(&mut r);
    assert_eq!(r, Rect { x_min: -2, y_min: -7, x_max: 5, y_max: 100 });
    let mut r = Rect { x_min: -50, y_min: 0, x_max: 0, y_max: 0 };
    o.update_cbox(&mut r);
    assert_eq!(r, Rect { x_min: -50, y_min: -7, x_max: 5, y_max: 100 });
    let default = Outline::default();
    let mut r = Rect::default();
    default.update_cbox(&mut r);
    assert_eq!(r, Rect::default());
}
