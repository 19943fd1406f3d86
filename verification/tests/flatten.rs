use outline_raster::flatten::{
    compute_scale, floor_div, make_line, normalize, push_cubic, push_line, push_quadratic,
    upper_mul, OutlineSegment,
};
use outline_raster::outline::{Outline, Rect, SegmentType, Vector};
use outline_raster::polyline::{Segment, SegmentFlags};
use outline_raster::rasterizer::RasterizerData;

fn v(x: i32, y: i32) -> Vector {
    Vector { x, y }
}

fn ends(lines: &[Segment]) -> Vec<(i32, i32, i32, i32)> {
    lines.iter().map(|l| (l.x_min, l.y_min, l.x_max, l.y_max)).collect()
}

#[test]
fn upper_mul_is_the_high_word() {
    assert_eq!(upper_mul(0, 0xffff_ffff), 0);
    assert_eq!(upper_mul(0xffff_ffff, 0xffff_ffff), 0xffff_fffe);
    assert_eq!(upper_mul(0x8000_0000, 0x8000_0000), 0x4000_0000);
    assert_eq!(upper_mul(0x1_0000, 0x1_0000), 1);
    assert_eq!(upper_mul(0xffff, 0x1_0000), 0);
}

#[test]
fn scale_formula_bit_for_bit() {
    assert_eq!(compute_scale(0x8000_0000), 1056561954);
    assert_eq!(compute_scale(0xC000_0000), 705179942);
    assert_eq!(compute_scale(0xFFFF_FFFF), 528280977);
    // the linear term is larger than the constant here
    assert_eq!(compute_scale(0xB98C_0000), 732700207);
    assert_eq!(compute_scale(0), 0x8810_624D);
    assert_eq!(compute_scale(1), 0x8810_624D);
}

#[test]
fn normalize_sets_bit_30() {
    assert_eq!(normalize(1), (30, 1 << 30));
    assert_eq!(normalize(0x4000_0000), (0, 1));
    assert_eq!(normalize(0x3fff_ffff), (1, 2));
    assert_eq!(normalize(0x7fff_ffff), (0, 1));
    assert_eq!(normalize(640), (21, 1 << 21));
    for m in [1u32, 2, 3, 5, 640, 12345, 0x1fff_ffff, 0x2000_0000] {
        let (shift, factor) = normalize(m);
        assert_eq!(factor, 1 << shift);
        let top = (m as u64) * (factor as u64) * 2;
        assert!(top >= 0x8000_0000 && top <= 0xffff_ffff, "m = {}", m);
    }
}

#[test]
fn line_along_x() {
    let l = make_line(v(0, 0), v(640, 0));
    assert_eq!(
        l,
        Segment {
            c: 0,
            a: 0,
            b: -1342177280,
            scale: 859060567,
            flags: SegmentFlags {
                dn: true,
                ul_dr: true,
                exact_left: true,
                exact_right: true,
                exact_top: true,
                exact_bottom: true,
            },
            x_min: 0,
            x_max: 640,
            y_min: 0,
            y_max: 0,
        }
    );
}

#[test]
fn line_up_and_to_the_left() {
    let l = make_line(v(10, 20), v(-30, 50));
    assert_eq!(l.a, 1006632960);
    assert_eq!(l.b, 1342177280);
    assert_eq!(l.c, 36909875200);
    assert_eq!(l.scale, 859060567);
    assert!(l.flags.dn);
    assert!(!l.flags.ul_dr);
    assert_eq!((l.x_min, l.x_max, l.y_min, l.y_max), (-30, 10, 20, 50));
    // the direction is had back from the coefficients and the shift
    let (shift, _) = normalize(40);
    assert_eq!(shift, 25);
    assert_eq!(l.a >> shift, 30);
    assert_eq!(-(l.b >> shift), -40);
    // both ends lie on the line
    assert_eq!(l.a as i64 * 10 + l.b as i64 * 20, l.c);
    assert_eq!(l.a as i64 * -30 + l.b as i64 * 50, l.c);
}

#[test]
fn line_flags_follow_the_direction() {
    let cases = [
        ((1, 1), true, true),
        ((1, -1), false, false),
        ((-1, 1), true, false),
        ((-1, -1), false, true),
        ((1, 0), true, true),
        ((-1, 0), true, false),
        ((0, 1), true, true),
        ((0, -1), false, false),
    ];
    for &((x, y), dn, ul_dr) in cases.iter() {
        let l = make_line(v(0, 0), v(x, y));
        assert_eq!((l.flags.dn, l.flags.ul_dr), (dn, ul_dr), "direction ({}, {})", x, y);
        assert!(l.flags.exact_left && l.flags.exact_right && l.flags.exact_top && l.flags.exact_bottom);
    }
}

#[test]
fn line_between_the_furthest_points() {
    let m = Outline::MAX_COORD;
    let l = make_line(v(-m, -m), v(m, m));
    assert_eq!(l.a, (2 * m) << 2);
    assert_eq!(l.b, -((2 * m) << 2));
    assert_eq!(normalize(2 * m as u32), (2, 4));
    assert_eq!(l.c, 0);
    assert!(l.scale > 0);
}

#[test]
fn line_without_length_adds_nothing() {
    let mut lines = Vec::new();
    push_line(&mut lines, v(7, 7), v(7, 7));
    assert!(lines.is_empty());
    push_line(&mut lines, v(7, 7), v(7, 8));
    assert_eq!(lines, vec![make_line(v(7, 7), v(7, 8))]);
}

#[test]
fn floor_div_rounds_down() {
    assert_eq!(floor_div(7, 2), 3);
    assert_eq!(floor_div(-7, 2), -4);
    assert_eq!(floor_div(-8, 2), -4);
    assert_eq!(floor_div(-1, 8), -1);
    assert_eq!(floor_div(0, 4), 0);
    assert_eq!(floor_div(-0x7fff_fff8, 8), -0x0fff_ffff);
    assert_eq!(floor_div(i32::MAX, 8), 0x0fff_ffff);
    assert_eq!(floor_div(i32::MIN, 1), i32::MIN);
    assert_eq!(floor_div(i32::MIN, i32::MAX), -2);
    assert_eq!(floor_div(-10, 3), -4);
    assert_eq!(floor_div(-9, 3), -3);
    assert_eq!(floor_div(10, 1000), 0);
    assert_eq!(floor_div(-10, 1000), -1);
}

#[test]
fn chord_test() {
    let seg = OutlineSegment::new(v(0, 0), v(640, 640), 16);
    assert_eq!((seg.r.x, seg.r.y), (640, 640));
    assert_eq!(seg.r2, 819200);
    assert_eq!(seg.er, 10240);
    assert!(seg.subdivide(v(0, 0), v(640, 0)));
    let flat = OutlineSegment::new(v(0, 0), v(640, 0), 16);
    // the tolerance is the outline error times the length of the chord
    assert!(!flat.subdivide(v(0, 0), v(320, 5)));
    assert!(!flat.subdivide(v(0, 0), v(320, 16)));
    assert!(flat.subdivide(v(0, 0), v(320, 17)));
    // before the start and behind the end
    assert!(flat.subdivide(v(0, 0), v(-17, 0)));
    assert!(!flat.subdivide(v(0, 0), v(-16, 0)));
    assert!(flat.subdivide(v(0, 0), v(657, 0)));
    assert!(!flat.subdivide(v(0, 0), v(656, 0)));
    // the chord of a line from right to left is measured with its sign
    let back = OutlineSegment::new(v(640, 0), v(0, 0), 16);
    assert_eq!((back.r.x, back.r.y), (-640, 0));
    assert!(!back.subdivide(v(640, 0), v(320, 0)));
    assert!(back.subdivide(v(640, 0), v(700, 0)));
}

#[test]
fn quadratic_is_cut_until_flat() {
    let mut lines = Vec::new();
    push_quadratic(&mut lines, v(0, 0), v(640, 0), v(640, 640), 16, 32);
    assert_eq!(
        ends(&lines),
        vec![
            (0, 0, 150, 10),
            (150, 10, 280, 40),
            (280, 40, 390, 90),
            (390, 90, 480, 160),
            (480, 160, 550, 250),
            (550, 250, 600, 360),
            (600, 360, 630, 490),
            (630, 490, 640, 640),
        ]
    );
    assert_eq!(lines[0], make_line(v(0, 0), v(150, 10)));
    assert_eq!(lines[7], make_line(v(630, 490), v(640, 640)));
}

#[test]
fn cubic_is_cut_until_flat() {
    let mut lines = Vec::new();
    push_cubic(&mut lines, v(0, 0), v(0, 640), v(640, 640), v(640, 0), 16, 32);
    let expected = [
        ((0, 0), (27, 210)),
        ((27, 210), (100, 360)),
        ((100, 360), (202, 450)),
        ((202, 450), (320, 480)),
        ((320, 480), (437, 450)),
        ((437, 450), (540, 360)),
        ((540, 360), (612, 210)),
        ((612, 210), (640, 0)),
    ];
    assert_eq!(lines.len(), expected.len());
    for (l, &((x0, y0), (x1, y1))) in lines.iter().zip(expected.iter()) {
        assert_eq!(*l, make_line(v(x0, y0), v(x1, y1)));
    }
}

#[test]
fn depth_bounds_the_cuts() {
    let mut lines = Vec::new();
    push_quadratic(&mut lines, v(0, 0), v(640, 0), v(640, 640), 16, 0);
    assert_eq!(lines, vec![make_line(v(0, 0), v(640, 640))]);
    let mut lines = Vec::new();
    push_quadratic(&mut lines, v(0, 0), v(640, 0), v(640, 640), 16, 1);
    assert_eq!(lines.len(), 2);
    let mut lines = Vec::new();
    push_cubic(&mut lines, v(0, 0), v(0, 640), v(640, 640), v(640, 0), 16, 2);
    assert_eq!(lines.len(), 4);
}

#[test]
fn degenerate_quadratic_is_a_line() {
    // the control point lies on the chord, between its ends
    for p1 in [v(0, 0), v(320, 0), v(1, 0), v(640, 0)] {
        let mut curve = Vec::new();
        push_quadratic(&mut curve, v(0, 0), p1, v(640, 0), 16, 32);
        let mut line = Vec::new();
        push_line(&mut line, v(0, 0), v(640, 0));
        assert_eq!(curve, line);
    }
    let mut curve = Vec::new();
    push_quadratic(&mut curve, v(-100, -50), v(0, 0), v(100, 50), 0, 32);
    assert_eq!(curve, vec![make_line(v(-100, -50), v(100, 50))]);
    // all three points in one place: nothing at all
    let mut curve = Vec::new();
    push_quadratic(&mut curve, v(5, 5), v(5, 5), v(5, 5), 16, 32);
    assert!(curve.is_empty());
}

#[test]
fn control_point_behind_the_end_of_the_chord_is_cut() {
    // on the line through the chord, but far behind its end
    let mut curve = Vec::new();
    push_quadratic(&mut curve, v(0, 0), v(1280, 0), v(640, 0), 16, 32);
    assert_eq!(ends(&curve), vec![(0, 0, 800, 0), (800, 0, 850, 0), (840, 0, 850, 0), (640, 0, 840, 0)]);
}

#[test]
fn rasterizer_flattens_an_outline() {
    let mut o = Outline::new(8, 3);
    o.add_point(v(0, 0), None).unwrap();
    o.add_point(v(640, 0), Some(SegmentType::LineSegment)).unwrap();
    o.add_point(v(640, 640), None).unwrap();
    o.add_point(v(0, 640), Some(SegmentType::QuadSpline)).unwrap();
    o.close_contour();

    let mut rst = RasterizerData::new(4, 16).unwrap();
    assert_eq!(rst.bbox(), Rect { x_min: 0, y_min: 0, x_max: 0, y_max: 0 });
    rst.set_outline(&o, false);

    let mut expected = Vec::new();
    push_line(&mut expected, v(0, 0), v(640, 0));
    push_quadratic(&mut expected, v(640, 0), v(640, 640), v(0, 640), 16, 32);
    push_line(&mut expected, v(0, 640), v(0, 0));
    assert_eq!(rst.lines(), &expected[..]);
    assert_eq!(rst.n_first(), expected.len());
    assert_eq!(rst.bbox(), Rect { x_min: 0, y_min: 0, x_max: 640, y_max: 640 });
    assert_eq!(rst.outline_error(), 16);
    assert_eq!(rst.tile_order(), 4);

    // one more contour of the same shape
    let mut extra = Outline::new(4, 2);
    extra.add_point(v(-64, 100), None).unwrap();
    extra.add_point(v(-64, 900), Some(SegmentType::LineSegment)).unwrap();
    extra.close_contour();
    rst.set_outline(&extra, true);
    assert_eq!(rst.lines().len(), expected.len() + 2);
    assert_eq!(rst.n_first(), expected.len());
    assert_eq!(rst.bbox(), Rect { x_min: -64, y_min: 0, x_max: 640, y_max: 900 });

    // a new shape: nothing older is kept, and the box starts anew
    rst.set_outline(&extra, false);
    let mut alone = Vec::new();
    push_line(&mut alone, v(-64, 100), v(-64, 900));
    push_line(&mut alone, v(-64, 900), v(-64, 100));
    assert_eq!(rst.lines(), &alone[..]);
    assert_eq!(rst.n_first(), 2);
    assert_eq!(rst.bbox(), Rect { x_min: -64, y_min: 100, x_max: -64, y_max: 900 });

    // lines added by hand do not outlast a new shape either
    rst.add_line(v(5000, 5000), v(6000, 6000));
    assert_eq!(rst.lines().len(), 3);
    rst.set_outline(&o, false);
    assert_eq!(rst.lines(), &expected[..]);
    assert_eq!(rst.n_first(), expected.len());
    assert_eq!(rst.bbox(), Rect { x_min: 0, y_min: 0, x_max: 640, y_max: 640 });

    // an outline without segments leaves an empty box
    rst.set_outline(&Outline::new(0, 0), false);
    assert!(rst.lines().is_empty());
    assert_eq!(rst.n_first(), 0);
    assert_eq!(rst.bbox(), Rect { x_min: i32::MAX, y_min: i32::MAX, x_max: i32::MIN, y_max: i32::MIN });
}

#[test]
fn add_line_and_curves_by_hand() {
    let mut rst = RasterizerData::new(2, 16).unwrap();
    assert!(rst.add_line(v(0, 0), v(0, 0)));
    assert!(rst.lines().is_empty());
    assert!(rst.add_line(v(0, 0), v(64, 0)));
    assert!(rst.add_quadratic([v(64, 0), v(64, 64), v(0, 64)]));
    assert!(rst.add_cubic([v(0, 64), v(0, 48), v(0, 16), v(0, 0)]));
    let lines = rst.lines();
    assert_eq!(lines[0], make_line(v(0, 0), v(64, 0)));
    assert_eq!(*lines.last().unwrap(), make_line(v(0, 64), v(0, 0)));
    // none of this is of the first batch, and the box holds all of it
    assert_eq!(rst.n_first(), 0);
    assert_eq!(rst.bbox(), Rect { x_min: 0, y_min: 0, x_max: 64, y_max: 64 });
}

#[test]
fn lines_added_by_hand_widen_the_box() {
    let mut rst = RasterizerData::new(2, 16).unwrap();
    assert_eq!(rst.bbox(), Rect { x_min: 0, y_min: 0, x_max: 0, y_max: 0 });
    rst.add_line(v(-100, 20), v(300, -40));
    assert_eq!(rst.bbox(), Rect { x_min: -100, y_min: -40, x_max: 300, y_max: 20 });
    // a line without length adds nothing and widens nothing
    rst.add_line(v(900, 900), v(900, 900));
    assert_eq!(rst.bbox(), Rect { x_min: -100, y_min: -40, x_max: 300, y_max: 20 });
    rst.add_cubic([v(0, 0), v(0, 500), v(10, 500), v(10, 0)]);
    let b = rst.bbox();
    assert_eq!((b.x_min, b.x_max, b.y_min), (-100, 300, -40));
    assert!(b.y_max > 300 && b.y_max <= 500);
    for line in rst.lines() {
        assert!(b.x_min <= line.x_min && line.x_max <= b.x_max);
        assert!(b.y_min <= line.y_min && line.y_max <= b.y_max);
    }
}
