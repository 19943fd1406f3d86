use outline_raster::keys::{KeyEvent, KeyState, Keys};
use outline_raster::outline::{Rect, Segment, Vector};
use outline_raster::tokens::{add_curve, segments_of_tokens, DrawingToken, TokenType};

fn v(x: i32, y: i32) -> Vector {
    Vector { x, y }
}

fn t(token_type: TokenType, x: i32, y: i32) -> DrawingToken {
    DrawingToken { token_type, point: v(x, y) }
}

#[test]
fn keys_go_down_and_up() {
    let mut keys = Keys::default();
    assert!(!keys.pressed(65));
    assert_eq!(keys.update(KeyEvent::Other, 65), KeyState::Up);
    assert_eq!(keys.update(KeyEvent::Press, 65), KeyState::Pressed);
    assert!(keys.pressed(65));
    assert_eq!(keys.update(KeyEvent::Press, 65), KeyState::Down);
    assert_eq!(keys.update(KeyEvent::Other, 65), KeyState::Down);
    assert_eq!(keys.update(KeyEvent::Press, 66), KeyState::Pressed);
    assert_eq!(keys.update(KeyEvent::Release, 65), KeyState::Released);
    assert!(!keys.pressed(65));
    assert!(keys.pressed(66));
    assert_eq!(keys.update(KeyEvent::Release, 65), KeyState::Up);
    assert_eq!(keys.update(KeyEvent::Release, 66), KeyState::Released);
}

#[test]
fn only_the_low_byte_of_a_key_counts() {
    let mut keys = Keys::default();
    assert_eq!(keys.update(KeyEvent::Press, 0x141), KeyState::Pressed);
    assert!(keys.pressed(0x41));
    assert!(keys.pressed(0xffff_ff41));
    assert!(!keys.pressed(0x42));
    assert_eq!(keys.update(KeyEvent::Release, 0x41), KeyState::Released);
    let held = keys;
    assert!(!held.pressed(0x141));
    for key in 0..=255u32 {
        assert_eq!(keys.update(KeyEvent::Press, key), KeyState::Pressed);
    }
    for key in 0..=255u32 {
        assert!(keys.pressed(key));
    }
}

#[test]
fn tokens_without_a_shape() {
    assert_eq!(segments_of_tokens(&[]), (vec![], Rect { x_min: i32::MAX, y_min: i32::MAX, x_max: i32::MIN, y_max: i32::MIN }));
    let (segments, cbox) = segments_of_tokens(&[t(TokenType::Move, 5, 6), t(TokenType::MoveNc, -1, 9)]);
    assert!(segments.is_empty());
    assert_eq!(cbox, Rect { x_min: -1, y_min: 6, x_max: 5, y_max: 9 });
}

#[test]
fn tokens_of_lines() {
    let (segments, cbox) = segments_of_tokens(&[
        t(TokenType::Move, 0, 0),
        t(TokenType::Line, 100, 0),
        t(TokenType::Line, 100, 100),
        t(TokenType::Move, 500, 500),
        t(TokenType::Line, 600, 500),
        t(TokenType::MoveNc, 700, 700),
        t(TokenType::Line, 800, 700),
    ]);
    assert_eq!(
        segments,
        vec![
            Segment::LineSegment(v(0, 0), v(100, 0)),
            Segment::LineSegment(v(100, 0), v(100, 100)),
            // the move closes the shape
            Segment::LineSegment(v(100, 100), v(0, 0)),
            Segment::LineSegment(v(500, 500), v(600, 500)),
            // the other kind of move leaves it open, and it is closed at the end
            Segment::LineSegment(v(700, 700), v(800, 700)),
            Segment::LineSegment(v(800, 700), v(500, 500)),
        ]
    );
    assert_eq!(cbox, Rect { x_min: 0, y_min: 0, x_max: 800, y_max: 700 });
}

#[test]
fn tokens_of_curves() {
    let b = TokenType::CubicBezier;
    let (segments, cbox) = segments_of_tokens(&[
        t(TokenType::Move, 0, 0),
        t(b, 0, 90),
        t(b, 90, 90),
        t(b, 90, 0),
        // cut short: passed over
        t(b, 1000, 1000),
        t(b, 2000, 2000),
        t(TokenType::Line, 50, -50),
    ]);
    assert_eq!(
        segments,
        vec![
            Segment::CubicSpline(v(0, 0), v(0, 90), v(90, 90), v(90, 0)),
            Segment::LineSegment(v(90, 0), v(50, -50)),
            Segment::LineSegment(v(50, -50), v(0, 0)),
        ]
    );
    assert_eq!(cbox, Rect { x_min: 0, y_min: -50, x_max: 90, y_max: 90 });
}

#[test]
fn spline_becomes_a_curve() {
    let mut segments = Vec::new();
    let mut cbox = Rect { x_min: 0, y_min: 0, x_max: 0, y_max: 0 };
    add_curve(&mut segments, &mut cbox, [v(0, 0), v(90, 0), v(180, 90), v(180, 180)], true);
    // thirds: (30, 0), (30, 30), (0, 30)
    assert_eq!(segments, vec![Segment::CubicSpline(v(90, 15), v(120, 30), v(150, 60), v(165, 90))]);
    assert_eq!(cbox, Rect { x_min: 0, y_min: 0, x_max: 180, y_max: 180 });
    // rounded towards the start of each third, and down at the halves
    let mut segments = Vec::new();
    add_curve(&mut segments, &mut cbox, [v(0, 0), v(-10, 10), v(-12, 0), v(0, -20)], true);
    // thirds: (-3, 3), (0, -3), (4, -6)
    assert_eq!(segments, vec![Segment::CubicSpline(v(-9, 7), v(-10, 7), v(-12, 3), v(-10, -2))]);
    let s = TokenType::BSpline;
    let (segments, _) = segments_of_tokens(&[t(s, 90, 0), t(s, 180, 90), t(s, 180, 180)]);
    assert_eq!(
        segments,
        vec![
            Segment::CubicSpline(v(90, 15), v(120, 30), v(150, 60), v(165, 90)),
            Segment::LineSegment(v(180, 180), v(0, 0)),
        ]
    );
}
