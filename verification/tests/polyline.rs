use outline_raster::error::RasterError;
use outline_raster::flatten::make_line;
use outline_raster::outline::Vector;
use outline_raster::polyline::{Segment, SegmentFlag, SegmentFlags};
use outline_raster::split::{get_fill_flags, polyline_split_horz, polyline_split_vert, FillFlags};

fn v(x: i32, y: i32) -> Vector {
    Vector { x, y }
}

const PLAIN: FillFlags = FillFlags { solid: false, complex: false, reverse: false, generic: false };

#[test]
fn flag_set() {
    let mut f = SegmentFlags::default();
    assert!(!f.contains(SegmentFlag::Dn));
    f.insert(SegmentFlag::Dn);
    f.insert(SegmentFlag::ExactTop);
    assert!(f.contains(SegmentFlag::Dn) && f.contains(SegmentFlag::ExactTop));
    assert!(!f.contains(SegmentFlag::UlDr));
    f.remove(SegmentFlag::Dn);
    assert!(!f.contains(SegmentFlag::Dn) && f.exact_top);
    f.insert(SegmentFlag::UlDr);
    f.insert(SegmentFlag::ExactLeft);
    f.insert(SegmentFlag::ExactRight);
    f.insert(SegmentFlag::ExactBottom);
    assert!(f.ul_dr && f.exact_left && f.exact_right && f.exact_bottom);
    let bits: Vec<u32> = [
        SegmentFlag::Dn,
        SegmentFlag::UlDr,
        SegmentFlag::ExactLeft,
        SegmentFlag::ExactRight,
        SegmentFlag::ExactTop,
        SegmentFlag::ExactBottom,
    ]
    .iter()
    .map(|f| f.bit())
    .collect();
    assert_eq!(bits, vec![1, 2, 4, 8, 16, 32]);
}

#[test]
fn default_segment_is_all_zero() {
    let s = Segment::default();
    assert_eq!((s.a, s.b, s.c, s.scale), (0, 0, 0, 0));
    assert_eq!((s.x_min, s.x_max, s.y_min, s.y_max), (0, 0, 0, 0));
    assert_eq!(s.flags, SegmentFlags::default());
}

#[test]
fn checks_by_the_box() {
    // from the upper left to the lower right, every side exact
    let s = make_line(v(100, 200), v(300, 600));
    assert!(s.check_left(100) && !s.check_left(101));
    assert!(s.check_right(300) && !s.check_right(299));
    assert!(s.check_top(200) && !s.check_top(201));
    assert!(s.check_bottom(600) && !s.check_bottom(599));
}

#[test]
fn checks_by_the_line() {
    // the same segment, but nothing is known of how it lies in its box
    let mut s = make_line(v(100, 200), v(300, 600));
    s.flags.exact_left = false;
    s.flags.exact_right = false;
    s.flags.exact_top = false;
    s.flags.exact_bottom = false;
    assert!(s.flags.ul_dr);
    // the line passes through (100, 200) and (300, 600)
    assert!(s.check_left(100) && !s.check_left(101));
    assert!(s.check_right(300) && !s.check_right(299));
    assert!(s.check_top(200) && !s.check_top(201));
    assert!(s.check_bottom(600) && !s.check_bottom(599));
    // a box that is larger than the segment: the line decides
    s.x_min = 0;
    s.y_max = 1000;
    assert!(s.check_left(100) && !s.check_left(101));
    assert!(s.check_bottom(600) && !s.check_bottom(599));
}

#[test]
fn move_takes_the_line_along() {
    let s = make_line(v(100, 200), v(300, 600));
    let mut m = s;
    m.move_x(40);
    assert_eq!((m.x_min, m.x_max, m.y_min, m.y_max), (60, 260, 200, 600));
    assert_eq!(m.c, s.c - s.a as i64 * 40);
    assert_eq!(m.flags, s.flags);
    // points keep their side of the line
    assert_eq!(m.a as i64 * 60 + m.b as i64 * 200, m.c);
    let mut m = s;
    m.move_y(200);
    assert_eq!((m.x_min, m.x_max, m.y_min, m.y_max), (100, 300, 0, 400));
    assert_eq!(m.c, s.c - s.b as i64 * 200);
    // it begins at the top now, so its left side is no longer known to be exact
    assert!(!m.flags.exact_left && m.flags.exact_top);
    let mut m = s;
    m.move_x(150);
    assert_eq!((m.x_min, m.x_max), (0, 150));
    assert!(!m.flags.exact_top && m.flags.exact_left);
}

#[test]
fn split_keeps_both_pieces_on_the_line() {
    let s = make_line(v(100, 200), v(300, 600));
    let (left, right) = s.split_horz(200);
    assert_eq!((left.x_min, left.x_max, left.y_min, left.y_max), (100, 200, 200, 600));
    assert_eq!((right.x_min, right.x_max, right.y_min, right.y_max), (0, 100, 200, 600));
    assert_eq!(left.c, s.c);
    assert_eq!(right.c, s.c - s.a as i64 * 200);
    assert_eq!((left.a, left.b, left.scale), (s.a, s.b, s.scale));
    assert_eq!((right.a, right.b, right.scale), (s.a, s.b, s.scale));
    // from the upper left to the lower right: the left piece is the upper one
    assert!(left.flags.exact_top && !left.flags.exact_bottom && left.flags.exact_right);
    assert!(!right.flags.exact_top && right.flags.exact_bottom && right.flags.exact_left);

    let (upper, lower) = s.split_vert(400);
    assert_eq!((upper.x_min, upper.x_max, upper.y_min, upper.y_max), (100, 300, 200, 400));
    assert_eq!((lower.x_min, lower.x_max, lower.y_min, lower.y_max), (100, 300, 0, 200));
    assert_eq!(lower.c, s.c - s.b as i64 * 400);
    assert!(upper.flags.exact_left && !upper.flags.exact_right && upper.flags.exact_bottom);
    assert!(!lower.flags.exact_left && lower.flags.exact_right && lower.flags.exact_top);

    // from the upper right to the lower left: the left piece is the lower one
    let t = make_line(v(300, 200), v(100, 600));
    assert!(!t.flags.ul_dr);
    let (left, right) = t.split_horz(200);
    assert!(!left.flags.exact_top && left.flags.exact_bottom && left.flags.exact_right);
    assert!(right.flags.exact_top && !right.flags.exact_bottom && right.flags.exact_left);
}

#[test]
fn fill_flags_of_a_batch() {
    assert_eq!(get_fill_flags(&[], 0), PLAIN);
    assert_eq!(get_fill_flags(&[], 1), FillFlags { solid: true, ..PLAIN });
    assert_eq!(get_fill_flags(&[], -3), FillFlags { solid: true, ..PLAIN });
    let down = make_line(v(100, 0), v(100, 256));
    let up = make_line(v(100, 256), v(100, 0));
    assert_eq!(get_fill_flags(&[down, up], 0), FillFlags { complex: true, generic: true, ..PLAIN });
    // a segment that runs to the right, or straight up or down, has the
    // winding number of the corner on the side that it paints
    for s in [up, down, make_line(v(0, 0), v(100, 10)), make_line(v(0, 10), v(100, 0))] {
        assert_eq!(get_fill_flags(&[s], 0), FillFlags { complex: true, ..PLAIN });
        assert_eq!(get_fill_flags(&[s], -1), FillFlags { complex: true, reverse: true, ..PLAIN });
        assert_eq!(get_fill_flags(&[s], 1), FillFlags { solid: true, ..PLAIN });
        assert_eq!(get_fill_flags(&[s], -2), FillFlags { solid: true, ..PLAIN });
    }
    // one that runs to the left has it on the other side
    for s in [make_line(v(100, 0), v(0, 100)), make_line(v(100, 100), v(0, 0))] {
        assert_eq!(get_fill_flags(&[s], 1), FillFlags { complex: true, ..PLAIN });
        assert_eq!(get_fill_flags(&[s], 0), FillFlags { complex: true, reverse: true, ..PLAIN });
        assert_eq!(get_fill_flags(&[s], 2), FillFlags { solid: true, ..PLAIN });
    }
    // once its left side is no longer exact, one from the upper left to the
    // lower right counts like one that runs to the left
    let mut s = down;
    s.flags.exact_left = false;
    assert_eq!(get_fill_flags(&[s], 1), FillFlags { complex: true, ..PLAIN });
}

#[test]
fn split_sorts_the_segments() {
    let left = make_line(v(10, 10), v(90, 50));
    let across = make_line(v(50, 20), v(150, 80));
    let right = make_line(v(120, 30), v(180, 10));
    let at_cut = make_line(v(100, 0), v(100, 70));
    let src = [left, across, right, at_cut];
    let s = polyline_split_horz(&src, [2, 2], [0, 0], 100).unwrap();
    let (a, b) = across.split_horz(100);
    let mut moved = right;
    moved.move_x(100);
    // the segment on the cut counts as left of it, and leaves nothing there
    assert_eq!(s.first, vec![left, a]);
    assert_eq!(s.second, vec![b, moved]);
    assert_eq!(s.n_first, [2, 0]);
    assert_eq!(s.n_second, [1, 1]);
    // it starts at the top, so what lies right of it is on its other side
    assert_eq!(s.winding, [0, -1]);

    let s = polyline_split_vert(&src, [4, 0], [5, 7], 40).unwrap();
    let (left_up, left_down) = left.split_vert(40);
    let (across_up, across_down) = across.split_vert(40);
    let (cut_up, cut_down) = at_cut.split_vert(40);
    assert_eq!(s.first, vec![left_up, across_up, right, cut_up]);
    assert_eq!(s.second, vec![left_down, across_down, cut_down]);
    assert_eq!(s.n_first, [4, 0]);
    assert_eq!(s.n_second, [3, 0]);
    assert_eq!(s.winding, [5, 7]);
}

#[test]
fn split_counts_what_touches_the_corner() {
    // both start at the top of the rectangle and lie left of the cut
    let up = make_line(v(0, 100), v(0, 0));
    let down = make_line(v(10, 0), v(10, 100));
    let s = polyline_split_horz(&[up], [1, 0], [0, 0], 50).unwrap();
    assert_eq!(s.winding, [1, 0]);
    assert_eq!(s.first, vec![up]);
    let s = polyline_split_horz(&[up, down], [1, 1], [0, 0], 50).unwrap();
    assert_eq!(s.winding, [1, -1]);
    let s = polyline_split_horz(&[up, down], [2, 0], [0, 0], 50).unwrap();
    assert_eq!(s.winding, [0, 0]);
    // more than there are: all of them make the first batch
    let s = polyline_split_horz(&[up, down], [5, 0], [3, 0], 50).unwrap();
    assert_eq!(s.winding, [3, 0]);
    assert_eq!(s.n_first, [2, 0]);
}

#[test]
fn split_refuses_a_segment_that_contradicts_itself() {
    // the line crosses x = 100 between y = 0 and y = 100, but the box does not reach it
    let mut s = make_line(v(50, 0), v(150, 100));
    s.flags.exact_left = false;
    s.flags.exact_right = false;
    s.x_max = 90;
    assert!(matches!(
        polyline_split_horz(&[s], [1, 0], [0, 0], 100),
        Err(RasterError::InvariantViolation)
    ));
    let mut s = make_line(v(0, 50), v(100, 150));
    s.flags.exact_top = false;
    s.flags.exact_bottom = false;
    s.y_min = 110;
    assert!(matches!(
        polyline_split_vert(&[s], [1, 0], [0, 0], 100),
        Err(RasterError::InvariantViolation)
    ));
}
